use vstd::prelude::*;
use vstd::bytes::*;
use crate::peer::PeerAddress;
use crate::hash::ChunkHash;

verus! {

// Every value is laid out as a fixed-width or length-prefixed byte string.
// For each shape there are: a specification of its encoding (`enc_*`), a
// specification of decoding a prefix of a byte string (`dec_*`, returning
// the value and how many bytes it took), a proof that decoding inverts
// encoding whatever follows it (`lemma_dec_enc_*`), and executable writers
// and readers that follow the two specifications exactly.
// ---------- u16, little endian ----------
pub open spec fn enc_u16(v: u16) -> Seq<u8> {
    spec_u16_to_le_bytes(v)
}

pub open spec fn dec_u16(s: Seq<u8>) -> Option<(u16, int)> {
    if s.len() >= 2 {
        Some((spec_u16_from_le_bytes(s.take(2)), 2int))
    } else {
        None
    }
}

pub proof fn lemma_dec_enc_u16(v: u16, rest: Seq<u8>)
    ensures
        enc_u16(v).len() == 2,
        dec_u16(enc_u16(v) + rest) == Some((v, 2int)),
{
    lemma_auto_spec_u16_to_from_le_bytes();
    assert((enc_u16(v) + rest).take(2) =~= enc_u16(v));
}

pub fn write_u16(out: &mut Vec<u8>, v: u16)
    ensures
        final(out)@ == old(out)@ + enc_u16(v),
{
    let mut b = u16_to_le_bytes(v);
    out.append(&mut b);
}

pub fn read_u16(bytes: &Vec<u8>, pos: usize) -> (r: Option<(u16, usize)>)
    requires
        pos <= bytes@.len(),
    ensures
        match r {
            Some((v, end)) => pos <= end <= bytes@.len() && dec_u16(bytes@.skip(pos as int))
                == Some((v, end - pos)),
            None => dec_u16(bytes@.skip(pos as int)) is None,
        },
{
    if bytes.len() - pos >= 2 {
        let sl = vstd::slice::slice_subrange(bytes.as_slice(), pos, pos + 2);
        let v = u16_from_le_bytes(sl);
        proof {
            assert(sl@ =~= bytes@.skip(pos as int).take(2));
        }
        Some((v, pos + 2))
    } else {
        None
    }
}

// ---------- u32, little endian ----------
pub open spec fn enc_u32(v: u32) -> Seq<u8> {
    spec_u32_to_le_bytes(v)
}

pub open spec fn dec_u32(s: Seq<u8>) -> Option<(u32, int)> {
    if s.len() >= 4 {
        Some((spec_u32_from_le_bytes(s.take(4)), 4int))
    } else {
        None
    }
}

pub proof fn lemma_dec_enc_u32(v: u32, rest: Seq<u8>)
    ensures
        enc_u32(v).len() == 4,
        dec_u32(enc_u32(v) + rest) == Some((v, 4int)),
{
    lemma_auto_spec_u32_to_from_le_bytes();
    assert((enc_u32(v) + rest).take(4) =~= enc_u32(v));
}

pub fn write_u32(out: &mut Vec<u8>, v: u32)
    ensures
        final(out)@ == old(out)@ + enc_u32(v),
{
    let mut b = u32_to_le_bytes(v);
    out.append(&mut b);
}

pub fn read_u32(bytes: &Vec<u8>, pos: usize) -> (r: Option<(u32, usize)>)
    requires
        pos <= bytes@.len(),
    ensures
        match r {
            Some((v, end)) => pos <= end <= bytes@.len() && dec_u32(bytes@.skip(pos as int))
                == Some((v, end - pos)),
            None => dec_u32(bytes@.skip(pos as int)) is None,
        },
{
    if bytes.len() - pos >= 4 {
        let sl = vstd::slice::slice_subrange(bytes.as_slice(), pos, pos + 4);
        let v = u32_from_le_bytes(sl);
        proof {
            assert(sl@ =~= bytes@.skip(pos as int).take(4));
        }
        Some((v, pos + 4))
    } else {
        None
    }
}

// ---------- u64, little endian ----------
pub open spec fn enc_u64(v: u64) -> Seq<u8> {
    spec_u64_to_le_bytes(v)
}

pub open spec fn dec_u64(s: Seq<u8>) -> Option<(u64, int)> {
    if s.len() >= 8 {
        Some((spec_u64_from_le_bytes(s.take(8)), 8int))
    } else {
        None
    }
}

pub proof fn lemma_dec_enc_u64(v: u64, rest: Seq<u8>)
    ensures
        enc_u64(v).len() == 8,
        dec_u64(enc_u64(v) + rest) == Some((v, 8int)),
{
    lemma_auto_spec_u64_to_from_le_bytes();
    assert((enc_u64(v) + rest).take(8) =~= enc_u64(v));
}

pub fn write_u64(out: &mut Vec<u8>, v: u64)
    ensures
        final(out)@ == old(out)@ + enc_u64(v),
{
    let mut b = u64_to_le_bytes(v);
    out.append(&mut b);
}

pub fn read_u64(bytes: &Vec<u8>, pos: usize) -> (r: Option<(u64, usize)>)
    requires
        pos <= bytes@.len(),
    ensures
        match r {
            Some((v, end)) => pos <= end <= bytes@.len() && dec_u64(bytes@.skip(pos as int))
                == Some((v, end - pos)),
            None => dec_u64(bytes@.skip(pos as int)) is None,
        },
{
    if bytes.len() - pos >= 8 {
        let sl = vstd::slice::slice_subrange(bytes.as_slice(), pos, pos + 8);
        let v = u64_from_le_bytes(sl);
        proof {
            assert(sl@ =~= bytes@.skip(pos as int).take(8));
        }
        Some((v, pos + 8))
    } else {
        None
    }
}

// ---------- bool, one byte, 0 or 1 ----------
pub open spec fn enc_bool(v: bool) -> Seq<u8> {
    seq![if v { 1u8 } else { 0u8 }]
}

pub open spec fn dec_bool(s: Seq<u8>) -> Option<(bool, int)> {
    if s.len() >= 1 && (s[0] == 0u8 || s[0] == 1u8) {
        Some(((s[0] == 1u8), 1int))
    } else {
        None
    }
}

pub proof fn lemma_dec_enc_bool(v: bool, rest: Seq<u8>)
    ensures
        enc_bool(v).len() == 1,
        dec_bool(enc_bool(v) + rest) == Some((v, 1int)),
{
}

pub fn write_bool(out: &mut Vec<u8>, v: bool)
    ensures
        final(out)@ == old(out)@ + enc_bool(v),
{
    out.push(if v { 1u8 } else { 0u8 });
    proof {
        assert(final(out)@ =~= old(out)@ + enc_bool(v));
    }
}

pub fn read_bool(bytes: &Vec<u8>, pos: usize) -> (r: Option<(bool, usize)>)
    requires
        pos <= bytes@.len(),
    ensures
        match r {
            Some((v, end)) => pos <= end <= bytes@.len() && dec_bool(bytes@.skip(pos as int))
                == Some((v, end - pos)),
            None => dec_bool(bytes@.skip(pos as int)) is None,
        },
{
    if bytes.len() - pos >= 1 {
        let b = bytes[pos];
        if b == 0 || b == 1 {
            Some((b == 1, pos + 1))
        } else {
            None
        }
    } else {
        None
    }
}

// ---------- peer address: ip then port ----------
pub open spec fn enc_peer(p: PeerAddress) -> Seq<u8> {
    enc_u32(p.ip) + enc_u16(p.port)
}

pub open spec fn dec_peer(s: Seq<u8>) -> Option<(PeerAddress, int)> {
    match dec_u32(s) {
        None => None,
        Some((ip, n1)) => match dec_u16(s.skip(n1)) {
            None => None,
            Some((port, n2)) => Some((PeerAddress { ip, port }, n1 + n2)),
        },
    }
}

pub proof fn lemma_dec_enc_peer(p: PeerAddress, rest: Seq<u8>)
    ensures
        enc_peer(p).len() == 6,
        dec_peer(enc_peer(p) + rest) == Some((p, 6int)),
{
    let s = enc_peer(p) + rest;
    assert(s =~= enc_u32(p.ip) + (enc_u16(p.port) + rest));
    lemma_dec_enc_u32(p.ip, enc_u16(p.port) + rest);
    assert(s.skip(4) =~= enc_u16(p.port) + rest);
    lemma_dec_enc_u16(p.port, rest);
}

pub fn write_peer(out: &mut Vec<u8>, p: PeerAddress)
    ensures
        final(out)@ == old(out)@ + enc_peer(p),
{
    write_u32(out, p.ip);
    write_u16(out, p.port);
    proof {
        assert(final(out)@ =~= old(out)@ + enc_peer(p));
    }
}

pub fn read_peer(bytes: &Vec<u8>, pos: usize) -> (r: Option<(PeerAddress, usize)>)
    requires
        pos <= bytes@.len(),
    ensures
        match r {
            Some((v, end)) => pos <= end <= bytes@.len() && dec_peer(bytes@.skip(pos as int))
                == Some((v, end - pos)),
            None => dec_peer(bytes@.skip(pos as int)) is None,
        },
{
    let s0 = Ghost(bytes@.skip(pos as int));
    match read_u32(bytes, pos) {
        None => None,
        Some((ip, pos1)) => {
            proof {
                assert(s0@.skip(4) =~= bytes@.skip(pos1 as int));
            }
            match read_u16(bytes, pos1) {
                None => None,
                Some((port, pos2)) => Some((PeerAddress { ip, port }, pos2)),
            }
        },
    }
}

// ---------- chunk hash: four words ----------
pub open spec fn enc_hash(h: ChunkHash) -> Seq<u8> {
    enc_u64(h.w0) + enc_u64(h.w1) + enc_u64(h.w2) + enc_u64(h.w3)
}

pub open spec fn dec_hash(s: Seq<u8>) -> Option<(ChunkHash, int)> {
    if s.len() >= 32 {
        match (dec_u64(s), dec_u64(s.skip(8)), dec_u64(s.skip(16)), dec_u64(s.skip(24))) {
            (Some((w0, _)), Some((w1, _)), Some((w2, _)), Some((w3, _))) => Some(
                (ChunkHash { w0, w1, w2, w3 }, 32int),
            ),
            _ => None,
        }
    } else {
        None
    }
}

pub proof fn lemma_dec_enc_hash(h: ChunkHash, rest: Seq<u8>)
    ensures
        enc_hash(h).len() == 32,
        dec_hash(enc_hash(h) + rest) == Some((h, 32int)),
{
    let s = enc_hash(h) + rest;
    lemma_auto_spec_u64_to_from_le_bytes();
    assert(s =~= enc_u64(h.w0) + (enc_u64(h.w1) + (enc_u64(h.w2) + (enc_u64(h.w3) + rest))));
    lemma_dec_enc_u64(h.w0, enc_u64(h.w1) + (enc_u64(h.w2) + (enc_u64(h.w3) + rest)));
    assert(s.skip(8) =~= enc_u64(h.w1) + (enc_u64(h.w2) + (enc_u64(h.w3) + rest)));
    lemma_dec_enc_u64(h.w1, enc_u64(h.w2) + (enc_u64(h.w3) + rest));
    assert(s.skip(16) =~= enc_u64(h.w2) + (enc_u64(h.w3) + rest));
    lemma_dec_enc_u64(h.w2, enc_u64(h.w3) + rest);
    assert(s.skip(24) =~= enc_u64(h.w3) + rest);
    lemma_dec_enc_u64(h.w3, rest);
}

pub fn write_hash(out: &mut Vec<u8>, h: ChunkHash)
    ensures
        final(out)@ == old(out)@ + enc_hash(h),
{
    write_u64(out, h.w0);
    write_u64(out, h.w1);
    write_u64(out, h.w2);
    write_u64(out, h.w3);
    proof {
        assert(final(out)@ =~= old(out)@ + enc_hash(h));
    }
}

pub fn read_hash(bytes: &Vec<u8>, pos: usize) -> (r: Option<(ChunkHash, usize)>)
    requires
        pos <= bytes@.len(),
    ensures
        match r {
            Some((v, end)) => pos <= end <= bytes@.len() && dec_hash(bytes@.skip(pos as int))
                == Some((v, end - pos)),
            None => dec_hash(bytes@.skip(pos as int)) is None,
        },
{
    let s0 = Ghost(bytes@.skip(pos as int));
    if bytes.len() - pos < 32 {
        return None;
    }
    let r0 = read_u64(bytes, pos);
    proof {
        assert(s0@.skip(8) =~= bytes@.skip(pos + 8));
        assert(s0@.skip(16) =~= bytes@.skip(pos + 16));
        assert(s0@.skip(24) =~= bytes@.skip(pos + 24));
    }
    let r1 = read_u64(bytes, pos + 8);
    let r2 = read_u64(bytes, pos + 16);
    let r3 = read_u64(bytes, pos + 24);
    match (r0, r1, r2, r3) {
        (Some((w0, _)), Some((w1, _)), Some((w2, _)), Some((w3, _))) => Some(
            (ChunkHash { w0, w1, w2, w3 }, pos + 32),
        ),
        _ => None,
    }
}

} // verus!

verus! {

// ---------- length-prefixed raw bytes ----------
pub open spec fn enc_bytes(b: Seq<u8>) -> Seq<u8> {
    enc_u64(b.len() as u64) + b
}

pub open spec fn dec_bytes(s: Seq<u8>) -> Option<(Seq<u8>, int)> {
    match dec_u64(s) {
        None => None,
        Some((n, c)) => if n <= usize::MAX && s.len() - c >= n {
            Some((s.skip(c).take(n as int), c + n))
        } else {
            None
        },
    }
}

pub proof fn lemma_dec_enc_bytes(b: Seq<u8>, rest: Seq<u8>)
    requires
        b.len() <= usize::MAX,
    ensures
        enc_bytes(b).len() == 8 + b.len(),
        dec_bytes(enc_bytes(b) + rest) == Some((b, 8 + b.len() as int)),
{
    let s = enc_bytes(b) + rest;
    assert(s =~= enc_u64(b.len() as u64) + (b + rest));
    lemma_dec_enc_u64(b.len() as u64, b + rest);
    assert(s.skip(8) =~= b + rest);
    assert(s.skip(8).take(b.len() as int) =~= b);
}

pub fn write_bytes(out: &mut Vec<u8>, data: &Vec<u8>)
    ensures
        final(out)@ == old(out)@ + enc_bytes(data@),
{
    write_u64(out, data.len() as u64);
    out.extend_from_slice(data.as_slice());
    proof {
        assert(final(out)@ =~= old(out)@ + enc_bytes(data@));
    }
}

pub fn read_bytes(bytes: &Vec<u8>, pos: usize) -> (r: Option<(Vec<u8>, usize)>)
    requires
        pos <= bytes@.len(),
    ensures
        match r {
            Some((v, end)) => pos <= end <= bytes@.len() && dec_bytes(bytes@.skip(pos as int))
                == Some((v@, end - pos)),
            None => dec_bytes(bytes@.skip(pos as int)) is None,
        },
{
    let s0 = Ghost(bytes@.skip(pos as int));
    match read_u64(bytes, pos) {
        None => None,
        Some((n, pos1)) => {
            if n > (usize::MAX as u64) {
                return None;
            }
            let n = n as usize;
            if bytes.len() - pos1 >= n {
                let sl = vstd::slice::slice_subrange(bytes.as_slice(), pos1, pos1 + n);
                let v = vstd::slice::slice_to_vec(sl);
                proof {
                    assert(v@ =~= s0@.skip(8).take(n as int));
                }
                Some((v, pos1 + n))
            } else {
                None
            }
        },
    }
}

// ---------- characters, four bytes each ----------
pub open spec fn enc_char(c: char) -> Seq<u8> {
    enc_u32(c as u32)
}

/// Decoding accepts only the code of a Unicode scalar value.
pub open spec fn dec_char(s: Seq<u8>) -> Option<(char, int)> {
    match dec_u32(s) {
        None => None,
        Some((u, c)) => if vstd::utf8::is_scalar(u) {
            Some(((u as char), c))
        } else {
            None
        },
    }
}

pub proof fn lemma_dec_enc_char(ch: char, rest: Seq<u8>)
    ensures
        enc_char(ch).len() == 4,
        dec_char(enc_char(ch) + rest) == Some((ch, 4int)),
{
    lemma_dec_enc_u32(ch as u32, rest);
    vstd::utf8::char_is_scalar(ch);
    vstd::utf8::char_u32_cast(ch, ch as u32);
}

pub open spec fn enc_chars_rec(cs: Seq<char>) -> Seq<u8>
    decreases cs.len(),
{
    if cs.len() == 0 {
        Seq::<u8>::empty()
    } else {
        enc_char(cs[0]) + enc_chars_rec(cs.drop_first())
    }
}

pub open spec fn dec_chars_rec(s: Seq<u8>, n: int) -> Option<(Seq<char>, int)>
    decreases n,
{
    if n <= 0 {
        Some((Seq::<char>::empty(), 0int))
    } else {
        match dec_char(s) {
            None => None,
            Some((ch, c)) => match dec_chars_rec(s.skip(c), n - 1) {
                None => None,
                Some((tail, m)) => Some((seq![ch] + tail, c + m)),
            },
        }
    }
}

pub proof fn lemma_dec_enc_chars_rec(cs: Seq<char>, rest: Seq<u8>)
    ensures
        enc_chars_rec(cs).len() == 4 * cs.len(),
        dec_chars_rec(enc_chars_rec(cs) + rest, cs.len() as int) == Some(
            (cs, enc_chars_rec(cs).len() as int),
        ),
    decreases cs.len(),
{
    if cs.len() == 0 {
        assert(enc_chars_rec(cs) + rest =~= rest);
    } else {
        let head = cs[0];
        let tail = cs.drop_first();
        let s = enc_chars_rec(cs) + rest;
        assert(s =~= enc_char(head) + (enc_chars_rec(tail) + rest));
        lemma_dec_enc_char(head, enc_chars_rec(tail) + rest);
        assert(s.skip(4) =~= enc_chars_rec(tail) + rest);
        lemma_dec_enc_chars_rec(tail, rest);
        assert(seq![head] + tail =~= cs);
    }
}

pub proof fn lemma_enc_chars_push(cs: Seq<char>, ch: char)
    ensures
        enc_chars_rec(cs.push(ch)) == enc_chars_rec(cs) + enc_char(ch),
    decreases cs.len(),
{
    let p = cs.push(ch);
    if cs.len() == 0 {
        assert(p[0] == ch);
        assert(p.drop_first() =~= Seq::<char>::empty());
        assert(enc_chars_rec(p) == enc_char(ch) + enc_chars_rec(p.drop_first()));
        assert(enc_chars_rec(p.drop_first()) == Seq::<u8>::empty());
        assert(enc_chars_rec(p) =~= enc_chars_rec(cs) + enc_char(ch));
    } else {
        assert(p.drop_first() =~= cs.drop_first().push(ch));
        lemma_enc_chars_push(cs.drop_first(), ch);
        assert(p[0] == cs[0]);
        assert(enc_chars_rec(p) == enc_char(cs[0]) + enc_chars_rec(p.drop_first()));
        assert(enc_chars_rec(p) =~= enc_chars_rec(cs) + enc_char(ch));
    }
}

// ---------- strings: length-prefixed characters ----------
pub open spec fn enc_string(s: Seq<char>) -> Seq<u8> {
    enc_u64(s.len() as u64) + enc_chars_rec(s)
}

pub open spec fn dec_string(s: Seq<u8>) -> Option<(Seq<char>, int)> {
    match dec_u64(s) {
        None => None,
        Some((n, c)) => match dec_chars_rec(s.skip(c), n as int) {
            None => None,
            Some((cs, m)) => Some((cs, c + m)),
        },
    }
}

pub proof fn lemma_dec_enc_string(cs: Seq<char>, rest: Seq<u8>)
    requires
        cs.len() <= usize::MAX,
    ensures
        enc_string(cs).len() == 8 + 4 * cs.len(),
        dec_string(enc_string(cs) + rest) == Some((cs, enc_string(cs).len() as int)),
{
    let s = enc_string(cs) + rest;
    assert(s =~= enc_u64(cs.len() as u64) + (enc_chars_rec(cs) + rest));
    lemma_dec_enc_u64(cs.len() as u64, enc_chars_rec(cs) + rest);
    assert(s.skip(8) =~= enc_chars_rec(cs) + rest);
    lemma_dec_enc_chars_rec(cs, rest);
}

/// Relies on str::chars and Iterator::collect: the characters of the
/// string, in order.
#[verifier::external_body]
pub fn str_chars(s: &str) -> (r: Vec<char>)
    ensures
        r@ == s@,
{
    s.chars().collect()
}

/// Relies on String::from_iter: the string made of exactly the given
/// characters, in order.
#[verifier::external_body]
pub fn string_from_chars(cs: &Vec<char>) -> (r: String)
    ensures
        r@ == cs@,
{
    cs.iter().collect()
}

/// Relies on char::from_u32: `Some` exactly on Unicode scalar values, and
/// the character returned carries the given code.
#[verifier::external_body]
pub fn char_from_u32(u: u32) -> (r: Option<char>)
    ensures
        r is Some <==> vstd::utf8::is_scalar(u),
        r matches Some(c) ==> c == u as char && c as u32 == u,
{
    char::from_u32(u)
}

pub fn write_string(out: &mut Vec<u8>, s: &String)
    ensures
        final(out)@ == old(out)@ + enc_string(s@),
{
    let cs = str_chars(s.as_str());
    write_u64(out, cs.len() as u64);
    let ghost base = out@;
    let mut i: usize = 0;
    while i < cs.len()
        invariant
            0 <= i <= cs@.len(),
            cs@ == s@,
            out@ == base + enc_chars_rec(cs@.take(i as int)),
        decreases cs@.len() - i,
    {
        write_u32(out, cs[i] as u32);
        proof {
            lemma_enc_chars_push(cs@.take(i as int), cs@[i as int]);
            assert(cs@.take(i + 1) =~= cs@.take(i as int).push(cs@[i as int]));
        }
        i = i + 1;
    }
    proof {
        assert(cs@.take(cs@.len() as int) =~= cs@);
    }
}

pub fn read_chars_rec(bytes: &Vec<u8>, pos: usize, n: u64) -> (r: Option<(Vec<char>, usize)>)
    requires
        pos <= bytes@.len(),
    ensures
        match r {
            Some((v, end)) => pos <= end <= bytes@.len() && dec_chars_rec(
                bytes@.skip(pos as int),
                n as int,
            ) == Some((v@, end - pos)),
            None => dec_chars_rec(bytes@.skip(pos as int), n as int) is None,
        },
    decreases n,
{
    if n == 0 {
        let empty: Vec<char> = Vec::new();
        proof {
            assert(empty@ =~= Seq::<char>::empty());
        }
        return Some((empty, pos));
    }
    match read_u32(bytes, pos) {
        None => None,
        Some((u, pos1)) => {
            match char_from_u32(u) {
                None => None,
                Some(ch) => {
                    proof {
                        assert(bytes@.skip(pos as int).skip(4) =~= bytes@.skip(pos1 as int));
                    }
                    match read_chars_rec(bytes, pos1, n - 1) {
                        None => None,
                        Some((mut v, end)) => {
                            v.insert(0, ch);
                            proof {
                                assert(v@ =~= seq![ch] + v@.drop_first());
                            }
                            Some((v, end))
                        },
                    }
                },
            }
        },
    }
}

pub fn read_string(bytes: &Vec<u8>, pos: usize) -> (r: Option<(String, usize)>)
    requires
        pos <= bytes@.len(),
    ensures
        match r {
            Some((v, end)) => pos <= end <= bytes@.len() && dec_string(bytes@.skip(pos as int))
                == Some((v@, end - pos)),
            None => dec_string(bytes@.skip(pos as int)) is None,
        },
{
    match read_u64(bytes, pos) {
        None => None,
        Some((n, pos1)) => {
            proof {
                assert(bytes@.skip(pos as int).skip(8) =~= bytes@.skip(pos1 as int));
            }
            match read_chars_rec(bytes, pos1, n) {
                None => None,
                Some((cs, end)) => Some((string_from_chars(&cs), end)),
            }
        },
    }
}

} // verus!

verus! {

// ---------- one file chunk: position, digest, downloaded flag ----------
pub open spec fn enc_chunk(c: crate::chunks::FileChunk) -> Seq<u8> {
    enc_u64(c.position) + enc_hash(c.hash) + enc_bool(c.downloaded)
}

pub open spec fn dec_chunk(s: Seq<u8>) -> Option<(crate::chunks::FileChunk, int)> {
    match dec_u64(s) {
        None => None,
        Some((position, c1)) => match dec_hash(s.skip(c1)) {
            None => None,
            Some((hash, c2)) => match dec_bool(s.skip(c1 + c2)) {
                None => None,
                Some((downloaded, c3)) => Some(
                    (crate::chunks::FileChunk { position, hash, downloaded }, c1 + c2 + c3),
                ),
            },
        },
    }
}

pub proof fn lemma_dec_enc_chunk(c: crate::chunks::FileChunk, rest: Seq<u8>)
    ensures
        enc_chunk(c).len() == 41,
        dec_chunk(enc_chunk(c) + rest) == Some((c, 41int)),
{
    let s = enc_chunk(c) + rest;
    assert(s =~= enc_u64(c.position) + (enc_hash(c.hash) + (enc_bool(c.downloaded) + rest)));
    lemma_dec_enc_u64(c.position, enc_hash(c.hash) + (enc_bool(c.downloaded) + rest));
    lemma_dec_enc_hash(c.hash, enc_bool(c.downloaded) + rest);
    assert(s.skip(8) =~= enc_hash(c.hash) + (enc_bool(c.downloaded) + rest));
    assert(s.skip(40) =~= enc_bool(c.downloaded) + rest);
    lemma_dec_enc_bool(c.downloaded, rest);
}

pub fn write_chunk(out: &mut Vec<u8>, c: &crate::chunks::FileChunk)
    ensures
        final(out)@ == old(out)@ + enc_chunk(*c),
{
    write_u64(out, c.position);
    write_hash(out, c.hash);
    write_bool(out, c.downloaded);
    proof {
        assert(final(out)@ =~= old(out)@ + enc_chunk(*c));
    }
}

pub fn read_chunk(bytes: &Vec<u8>, pos: usize) -> (r: Option<(crate::chunks::FileChunk, usize)>)
    requires
        pos <= bytes@.len(),
    ensures
        match r {
            Some((v, end)) => pos <= end <= bytes@.len() && dec_chunk(bytes@.skip(pos as int))
                == Some((v, end - pos)),
            None => dec_chunk(bytes@.skip(pos as int)) is None,
        },
{
    let s0 = Ghost(bytes@.skip(pos as int));
    match read_u64(bytes, pos) {
        None => None,
        Some((position, pos1)) => {
            proof {
                assert(s0@.skip(8) =~= bytes@.skip(pos1 as int));
            }
            match read_hash(bytes, pos1) {
                None => None,
                Some((hash, pos2)) => {
                    proof {
                        assert(s0@.skip(pos2 - pos) =~= bytes@.skip(pos2 as int));
                    }
                    match read_bool(bytes, pos2) {
                        None => None,
                        Some((downloaded, pos3)) => Some(
                            (crate::chunks::FileChunk { position, hash, downloaded }, pos3),
                        ),
                    }
                },
            }
        },
    }
}

// ---------- lists of peers ----------
pub open spec fn enc_peers_rec(ps: Seq<crate::peer::PeerAddress>) -> Seq<u8>
    decreases ps.len(),
{
    if ps.len() == 0 {
        Seq::<u8>::empty()
    } else {
        enc_peer(ps[0]) + enc_peers_rec(ps.drop_first())
    }
}

pub open spec fn dec_peers_rec(s: Seq<u8>, n: int) -> Option<(Seq<crate::peer::PeerAddress>, int)>
    decreases n,
{
    if n <= 0 {
        Some((Seq::<crate::peer::PeerAddress>::empty(), 0int))
    } else {
        match dec_peer(s) {
            None => None,
            Some((p, c)) => match dec_peers_rec(s.skip(c), n - 1) {
                None => None,
                Some((tail, m)) => Some((seq![p] + tail, c + m)),
            },
        }
    }
}

pub proof fn lemma_dec_enc_peers_rec(ps: Seq<crate::peer::PeerAddress>, rest: Seq<u8>)
    ensures
        enc_peers_rec(ps).len() == 6 * ps.len(),
        dec_peers_rec(enc_peers_rec(ps) + rest, ps.len() as int) == Some(
            (ps, enc_peers_rec(ps).len() as int),
        ),
    decreases ps.len(),
{
    if ps.len() == 0 {
        assert(enc_peers_rec(ps) + rest =~= rest);
    } else {
        let head = ps[0];
        let tail = ps.drop_first();
        let s = enc_peers_rec(ps) + rest;
        assert(s =~= enc_peer(head) + (enc_peers_rec(tail) + rest));
        lemma_dec_enc_peer(head, enc_peers_rec(tail) + rest);
        assert(s.skip(6) =~= enc_peers_rec(tail) + rest);
        lemma_dec_enc_peers_rec(tail, rest);
        assert(seq![head] + tail =~= ps);
    }
}

pub proof fn lemma_enc_peers_push(ps: Seq<crate::peer::PeerAddress>, p: crate::peer::PeerAddress)
    ensures
        enc_peers_rec(ps.push(p)) == enc_peers_rec(ps) + enc_peer(p),
    decreases ps.len(),
{
    let q = ps.push(p);
    if ps.len() == 0 {
        assert(q[0] == p);
        assert(q.drop_first() =~= Seq::<crate::peer::PeerAddress>::empty());
        assert(enc_peers_rec(q) == enc_peer(p) + enc_peers_rec(q.drop_first()));
        assert(enc_peers_rec(q.drop_first()) == Seq::<u8>::empty());
        assert(enc_peers_rec(q) =~= enc_peers_rec(ps) + enc_peer(p));
    } else {
        assert(q.drop_first() =~= ps.drop_first().push(p));
        lemma_enc_peers_push(ps.drop_first(), p);
        assert(q[0] == ps[0]);
        assert(enc_peers_rec(q) == enc_peer(ps[0]) + enc_peers_rec(q.drop_first()));
        assert(enc_peers_rec(q) =~= enc_peers_rec(ps) + enc_peer(p));
    }
}

pub open spec fn enc_peer_list(ps: Seq<crate::peer::PeerAddress>) -> Seq<u8> {
    enc_u64(ps.len() as u64) + enc_peers_rec(ps)
}

pub open spec fn dec_peer_list(s: Seq<u8>) -> Option<(Seq<crate::peer::PeerAddress>, int)> {
    match dec_u64(s) {
        None => None,
        Some((n, c)) => match dec_peers_rec(s.skip(c), n as int) {
            None => None,
            Some((ps, m)) => Some((ps, c + m)),
        },
    }
}

pub proof fn lemma_dec_enc_peer_list(ps: Seq<crate::peer::PeerAddress>, rest: Seq<u8>)
    requires
        ps.len() <= usize::MAX,
    ensures
        enc_peer_list(ps).len() == 8 + 6 * ps.len(),
        dec_peer_list(enc_peer_list(ps) + rest) == Some((ps, enc_peer_list(ps).len() as int)),
{
    let s = enc_peer_list(ps) + rest;
    assert(s =~= enc_u64(ps.len() as u64) + (enc_peers_rec(ps) + rest));
    lemma_dec_enc_u64(ps.len() as u64, enc_peers_rec(ps) + rest);
    assert(s.skip(8) =~= enc_peers_rec(ps) + rest);
    lemma_dec_enc_peers_rec(ps, rest);
}

pub fn write_peer_list(out: &mut Vec<u8>, ps: &Vec<crate::peer::PeerAddress>)
    ensures
        final(out)@ == old(out)@ + enc_peer_list(ps@),
{
    write_u64(out, ps.len() as u64);
    let ghost base = out@;
    let mut i: usize = 0;
    while i < ps.len()
        invariant
            0 <= i <= ps@.len(),
            out@ == base + enc_peers_rec(ps@.take(i as int)),
        decreases ps@.len() - i,
    {
        write_peer(out, ps[i]);
        proof {
            lemma_enc_peers_push(ps@.take(i as int), ps@[i as int]);
            assert(ps@.take(i + 1) =~= ps@.take(i as int).push(ps@[i as int]));
        }
        i = i + 1;
    }
    proof {
        assert(ps@.take(ps@.len() as int) =~= ps@);
    }
}

pub fn read_peers_rec(bytes: &Vec<u8>, pos: usize, n: u64) -> (r: Option<
    (Vec<crate::peer::PeerAddress>, usize),
>)
    requires
        pos <= bytes@.len(),
    ensures
        match r {
            Some((v, end)) => pos <= end <= bytes@.len() && dec_peers_rec(
                bytes@.skip(pos as int),
                n as int,
            ) == Some((v@, end - pos)),
            None => dec_peers_rec(bytes@.skip(pos as int), n as int) is None,
        },
    decreases n,
{
    if n == 0 {
        let empty: Vec<crate::peer::PeerAddress> = Vec::new();
        proof {
            assert(empty@ =~= Seq::<crate::peer::PeerAddress>::empty());
        }
        return Some((empty, pos));
    }
    match read_peer(bytes, pos) {
        None => None,
        Some((p, pos1)) => {
            proof {
                assert(bytes@.skip(pos as int).skip(pos1 - pos) =~= bytes@.skip(pos1 as int));
            }
            match read_peers_rec(bytes, pos1, n - 1) {
                None => None,
                Some((mut v, end)) => {
                    v.insert(0, p);
                    proof {
                        assert(v@ =~= seq![p] + v@.drop_first());
                    }
                    Some((v, end))
                },
            }
        },
    }
}

pub fn read_peer_list(bytes: &Vec<u8>, pos: usize) -> (r: Option<
    (Vec<crate::peer::PeerAddress>, usize),
>)
    requires
        pos <= bytes@.len(),
    ensures
        match r {
            Some((v, end)) => pos <= end <= bytes@.len() && dec_peer_list(bytes@.skip(pos as int))
                == Some((v@, end - pos)),
            None => dec_peer_list(bytes@.skip(pos as int)) is None,
        },
{
    match read_u64(bytes, pos) {
        None => None,
        Some((n, pos1)) => {
            proof {
                assert(bytes@.skip(pos as int).skip(8) =~= bytes@.skip(pos1 as int));
            }
            read_peers_rec(bytes, pos1, n)
        },
    }
}

} // verus!

verus! {

// ---------- lists of strings ----------
pub open spec fn enc_strings_rec(ss: Seq<Seq<char>>) -> Seq<u8>
    decreases ss.len(),
{
    if ss.len() == 0 {
        Seq::<u8>::empty()
    } else {
        enc_string(ss[0]) + enc_strings_rec(ss.drop_first())
    }
}

pub open spec fn dec_strings_rec(s: Seq<u8>, n: int) -> Option<(Seq<Seq<char>>, int)>
    decreases n,
{
    if n <= 0 {
        Some((Seq::<Seq<char>>::empty(), 0int))
    } else {
        match dec_string(s) {
            None => None,
            Some((v, c)) => match dec_strings_rec(s.skip(c), n - 1) {
                None => None,
                Some((tail, m)) => Some((seq![v] + tail, c + m)),
            },
        }
    }
}

/// True when every string in the sequence has a length a vector can hold.
pub open spec fn strings_fit(ss: Seq<Seq<char>>) -> bool {
    forall|i: int| 0 <= i < ss.len() ==> #[trigger] ss[i].len() <= usize::MAX
}

pub proof fn lemma_dec_enc_strings_rec(ss: Seq<Seq<char>>, rest: Seq<u8>)
    requires
        strings_fit(ss),
    ensures
        dec_strings_rec(enc_strings_rec(ss) + rest, ss.len() as int) == Some(
            (ss, enc_strings_rec(ss).len() as int),
        ),
    decreases ss.len(),
{
    if ss.len() == 0 {
        assert(enc_strings_rec(ss) + rest =~= rest);
    } else {
        let head = ss[0];
        let tail = ss.drop_first();
        let s = enc_strings_rec(ss) + rest;
        assert(s =~= enc_string(head) + (enc_strings_rec(tail) + rest));
        lemma_dec_enc_string(head, enc_strings_rec(tail) + rest);
        assert(s.skip(enc_string(head).len() as int) =~= enc_strings_rec(tail) + rest);
        lemma_dec_enc_strings_rec(tail, rest);
        assert(seq![head] + tail =~= ss);
    }
}

pub proof fn lemma_enc_strings_push(ss: Seq<Seq<char>>, v: Seq<char>)
    ensures
        enc_strings_rec(ss.push(v)) == enc_strings_rec(ss) + enc_string(v),
    decreases ss.len(),
{
    let q = ss.push(v);
    if ss.len() == 0 {
        assert(q[0] == v);
        assert(q.drop_first() =~= Seq::<Seq<char>>::empty());
        assert(enc_strings_rec(q) == enc_string(v) + enc_strings_rec(q.drop_first()));
        assert(enc_strings_rec(q.drop_first()) == Seq::<u8>::empty());
        assert(enc_strings_rec(q) =~= enc_strings_rec(ss) + enc_string(v));
    } else {
        assert(q.drop_first() =~= ss.drop_first().push(v));
        lemma_enc_strings_push(ss.drop_first(), v);
        assert(q[0] == ss[0]);
        assert(enc_strings_rec(q) == enc_string(ss[0]) + enc_strings_rec(q.drop_first()));
        assert(enc_strings_rec(q) =~= enc_strings_rec(ss) + enc_string(v));
    }
}

pub open spec fn enc_string_list(ss: Seq<Seq<char>>) -> Seq<u8> {
    enc_u64(ss.len() as u64) + enc_strings_rec(ss)
}

pub open spec fn dec_string_list(s: Seq<u8>) -> Option<(Seq<Seq<char>>, int)> {
    match dec_u64(s) {
        None => None,
        Some((n, c)) => match dec_strings_rec(s.skip(c), n as int) {
            None => None,
            Some((ss, m)) => Some((ss, c + m)),
        },
    }
}

pub proof fn lemma_dec_enc_string_list(ss: Seq<Seq<char>>, rest: Seq<u8>)
    requires
        ss.len() <= usize::MAX,
        strings_fit(ss),
    ensures
        dec_string_list(enc_string_list(ss) + rest) == Some(
            (ss, enc_string_list(ss).len() as int),
        ),
{
    let s = enc_string_list(ss) + rest;
    assert(s =~= enc_u64(ss.len() as u64) + (enc_strings_rec(ss) + rest));
    lemma_dec_enc_u64(ss.len() as u64, enc_strings_rec(ss) + rest);
    assert(s.skip(8) =~= enc_strings_rec(ss) + rest);
    lemma_dec_enc_strings_rec(ss, rest);
}

pub fn write_string_list(out: &mut Vec<u8>, ss: &Vec<String>)
    ensures
        final(out)@ == old(out)@ + enc_string_list(crate::message::strings_view(ss@)),
{
    write_u64(out, ss.len() as u64);
    let ghost views = crate::message::strings_view(ss@);
    let ghost base = out@;
    let mut i: usize = 0;
    while i < ss.len()
        invariant
            0 <= i <= ss@.len(),
            views == crate::message::strings_view(ss@),
            views.len() == ss@.len(),
            forall|k: int| 0 <= k < ss@.len() ==> views[k] == ss@[k]@,
            out@ == base + enc_strings_rec(views.take(i as int)),
        decreases ss@.len() - i,
    {
        write_string(out, &ss[i]);
        proof {
            lemma_enc_strings_push(views.take(i as int), views[i as int]);
            assert(views.take(i + 1) =~= views.take(i as int).push(views[i as int]));
        }
        i = i + 1;
    }
    proof {
        assert(views.take(views.len() as int) =~= views);
    }
}

pub fn read_strings_rec(bytes: &Vec<u8>, pos: usize, n: u64) -> (r: Option<(Vec<String>, usize)>)
    requires
        pos <= bytes@.len(),
    ensures
        match r {
            Some((v, end)) => pos <= end <= bytes@.len() && dec_strings_rec(
                bytes@.skip(pos as int),
                n as int,
            ) == Some((crate::message::strings_view(v@), end - pos)),
            None => dec_strings_rec(bytes@.skip(pos as int), n as int) is None,
        },
    decreases n,
{
    if n == 0 {
        let empty: Vec<String> = Vec::new();
        proof {
            assert(crate::message::strings_view(empty@) =~= Seq::<Seq<char>>::empty());
        }
        return Some((empty, pos));
    }
    match read_string(bytes, pos) {
        None => None,
        Some((v, pos1)) => {
            proof {
                assert(bytes@.skip(pos as int).skip(pos1 - pos) =~= bytes@.skip(pos1 as int));
            }
            match read_strings_rec(bytes, pos1, n - 1) {
                None => None,
                Some((mut vs, end)) => {
                    let ghost tail_views = crate::message::strings_view(vs@);
                    vs.insert(0, v);
                    proof {
                        assert(crate::message::strings_view(vs@) =~= seq![v@] + tail_views);
                    }
                    Some((vs, end))
                },
            }
        },
    }
}

pub fn read_string_list(bytes: &Vec<u8>, pos: usize) -> (r: Option<(Vec<String>, usize)>)
    requires
        pos <= bytes@.len(),
    ensures
        match r {
            Some((v, end)) => pos <= end <= bytes@.len() && dec_string_list(
                bytes@.skip(pos as int),
            ) == Some((crate::message::strings_view(v@), end - pos)),
            None => dec_string_list(bytes@.skip(pos as int)) is None,
        },
{
    match read_u64(bytes, pos) {
        None => None,
        Some((n, pos1)) => {
            proof {
                assert(bytes@.skip(pos as int).skip(8) =~= bytes@.skip(pos1 as int));
            }
            read_strings_rec(bytes, pos1, n)
        },
    }
}

// ---------- chunk requests: index and byte position ----------
pub open spec fn enc_req(v: (usize, u64)) -> Seq<u8> {
    enc_u64(v.0 as u64) + enc_u64(v.1)
}

pub open spec fn dec_req(s: Seq<u8>) -> Option<((usize, u64), int)> {
    match dec_u64(s) {
        None => None,
        Some((i, c1)) => if i <= usize::MAX {
            match dec_u64(s.skip(c1)) {
                None => None,
                Some((p, c2)) => Some((((i as usize), p), c1 + c2)),
            }
        } else {
            None
        },
    }
}

pub proof fn lemma_dec_enc_req(v: (usize, u64), rest: Seq<u8>)
    ensures
        enc_req(v).len() == 16,
        dec_req(enc_req(v) + rest) == Some((v, 16int)),
{
    let s = enc_req(v) + rest;
    assert(s =~= enc_u64(v.0 as u64) + (enc_u64(v.1) + rest));
    lemma_dec_enc_u64(v.0 as u64, enc_u64(v.1) + rest);
    assert(s.skip(8) =~= enc_u64(v.1) + rest);
    lemma_dec_enc_u64(v.1, rest);
}

pub open spec fn enc_reqs_rec(vs: Seq<(usize, u64)>) -> Seq<u8>
    decreases vs.len(),
{
    if vs.len() == 0 {
        Seq::<u8>::empty()
    } else {
        enc_req(vs[0]) + enc_reqs_rec(vs.drop_first())
    }
}

pub open spec fn dec_reqs_rec(s: Seq<u8>, n: int) -> Option<(Seq<(usize, u64)>, int)>
    decreases n,
{
    if n <= 0 {
        Some((Seq::<(usize, u64)>::empty(), 0int))
    } else {
        match dec_req(s) {
            None => None,
            Some((v, c)) => match dec_reqs_rec(s.skip(c), n - 1) {
                None => None,
                Some((tail, m)) => Some((seq![v] + tail, c + m)),
            },
        }
    }
}

pub proof fn lemma_dec_enc_reqs_rec(vs: Seq<(usize, u64)>, rest: Seq<u8>)
    ensures
        enc_reqs_rec(vs).len() == 16 * vs.len(),
        dec_reqs_rec(enc_reqs_rec(vs) + rest, vs.len() as int) == Some(
            (vs, enc_reqs_rec(vs).len() as int),
        ),
    decreases vs.len(),
{
    if vs.len() == 0 {
        assert(enc_reqs_rec(vs) + rest =~= rest);
    } else {
        let head = vs[0];
        let tail = vs.drop_first();
        let s = enc_reqs_rec(vs) + rest;
        assert(s =~= enc_req(head) + (enc_reqs_rec(tail) + rest));
        lemma_dec_enc_req(head, enc_reqs_rec(tail) + rest);
        assert(s.skip(16) =~= enc_reqs_rec(tail) + rest);
        lemma_dec_enc_reqs_rec(tail, rest);
        assert(seq![head] + tail =~= vs);
    }
}

pub proof fn lemma_enc_reqs_push(vs: Seq<(usize, u64)>, v: (usize, u64))
    ensures
        enc_reqs_rec(vs.push(v)) == enc_reqs_rec(vs) + enc_req(v),
    decreases vs.len(),
{
    let q = vs.push(v);
    if vs.len() == 0 {
        assert(q[0] == v);
        assert(q.drop_first() =~= Seq::<(usize, u64)>::empty());
        assert(enc_reqs_rec(q) == enc_req(v) + enc_reqs_rec(q.drop_first()));
        assert(enc_reqs_rec(q.drop_first()) == Seq::<u8>::empty());
        assert(enc_reqs_rec(q) =~= enc_reqs_rec(vs) + enc_req(v));
    } else {
        assert(q.drop_first() =~= vs.drop_first().push(v));
        lemma_enc_reqs_push(vs.drop_first(), v);
        assert(q[0] == vs[0]);
        assert(enc_reqs_rec(q) == enc_req(vs[0]) + enc_reqs_rec(q.drop_first()));
        assert(enc_reqs_rec(q) =~= enc_reqs_rec(vs) + enc_req(v));
    }
}

pub open spec fn enc_req_list(vs: Seq<(usize, u64)>) -> Seq<u8> {
    enc_u64(vs.len() as u64) + enc_reqs_rec(vs)
}

pub open spec fn dec_req_list(s: Seq<u8>) -> Option<(Seq<(usize, u64)>, int)> {
    match dec_u64(s) {
        None => None,
        Some((n, c)) => match dec_reqs_rec(s.skip(c), n as int) {
            None => None,
            Some((vs, m)) => Some((vs, c + m)),
        },
    }
}

pub proof fn lemma_dec_enc_req_list(vs: Seq<(usize, u64)>, rest: Seq<u8>)
    requires
        vs.len() <= usize::MAX,
    ensures
        enc_req_list(vs).len() == 8 + 16 * vs.len(),
        dec_req_list(enc_req_list(vs) + rest) == Some((vs, enc_req_list(vs).len() as int)),
{
    let s = enc_req_list(vs) + rest;
    assert(s =~= enc_u64(vs.len() as u64) + (enc_reqs_rec(vs) + rest));
    lemma_dec_enc_u64(vs.len() as u64, enc_reqs_rec(vs) + rest);
    assert(s.skip(8) =~= enc_reqs_rec(vs) + rest);
    lemma_dec_enc_reqs_rec(vs, rest);
}

pub fn write_req_list(out: &mut Vec<u8>, vs: &Vec<(usize, u64)>)
    ensures
        final(out)@ == old(out)@ + enc_req_list(vs@),
{
    write_u64(out, vs.len() as u64);
    let ghost base = out@;
    let mut i: usize = 0;
    while i < vs.len()
        invariant
            0 <= i <= vs@.len(),
            out@ == base + enc_reqs_rec(vs@.take(i as int)),
        decreases vs@.len() - i,
    {
        let (idx, p) = vs[i];
        write_u64(out, idx as u64);
        write_u64(out, p);
        proof {
            lemma_enc_reqs_push(vs@.take(i as int), vs@[i as int]);
            assert(vs@.take(i + 1) =~= vs@.take(i as int).push(vs@[i as int]));
            assert(out@ =~= base + enc_reqs_rec(vs@.take(i + 1)));
        }
        i = i + 1;
    }
    proof {
        assert(vs@.take(vs@.len() as int) =~= vs@);
    }
}

pub fn read_reqs_rec(bytes: &Vec<u8>, pos: usize, n: u64) -> (r: Option<(Vec<(usize, u64)>, usize)>)
    requires
        pos <= bytes@.len(),
    ensures
        match r {
            Some((v, end)) => pos <= end <= bytes@.len() && dec_reqs_rec(
                bytes@.skip(pos as int),
                n as int,
            ) == Some((v@, end - pos)),
            None => dec_reqs_rec(bytes@.skip(pos as int), n as int) is None,
        },
    decreases n,
{
    if n == 0 {
        let empty: Vec<(usize, u64)> = Vec::new();
        proof {
            assert(empty@ =~= Seq::<(usize, u64)>::empty());
        }
        return Some((empty, pos));
    }
    let s0 = Ghost(bytes@.skip(pos as int));
    match read_u64(bytes, pos) {
        None => None,
        Some((iv, pos1)) => {
            if iv > (usize::MAX as u64) {
                return None;
            }
            proof {
                assert(s0@.skip(8) =~= bytes@.skip(pos1 as int));
            }
            match read_u64(bytes, pos1) {
                None => None,
                Some((p, pos2)) => {
                    proof {
                        assert(s0@.skip(pos2 - pos) =~= bytes@.skip(pos2 as int));
                    }
                    match read_reqs_rec(bytes, pos2, n - 1) {
                        None => None,
                        Some((mut v, end)) => {
                            v.insert(0, (iv as usize, p));
                            proof {
                                assert(v@ =~= seq![(iv as usize, p)] + v@.drop_first());
                            }
                            Some((v, end))
                        },
                    }
                },
            }
        },
    }
}

pub fn read_req_list(bytes: &Vec<u8>, pos: usize) -> (r: Option<(Vec<(usize, u64)>, usize)>)
    requires
        pos <= bytes@.len(),
    ensures
        match r {
            Some((v, end)) => pos <= end <= bytes@.len() && dec_req_list(bytes@.skip(pos as int))
                == Some((v@, end - pos)),
            None => dec_req_list(bytes@.skip(pos as int)) is None,
        },
{
    match read_u64(bytes, pos) {
        None => None,
        Some((n, pos1)) => {
            proof {
                assert(bytes@.skip(pos as int).skip(8) =~= bytes@.skip(pos1 as int));
            }
            read_reqs_rec(bytes, pos1, n)
        },
    }
}

} // verus!

verus! {

// ---------- chunk payloads: index and raw bytes ----------
pub open spec fn enc_chunk_data(v: (usize, Seq<u8>)) -> Seq<u8> {
    enc_u64(v.0 as u64) + enc_bytes(v.1)
}

pub open spec fn dec_chunk_data(s: Seq<u8>) -> Option<((usize, Seq<u8>), int)> {
    match dec_u64(s) {
        None => None,
        Some((i, c1)) => if i <= usize::MAX {
            match dec_bytes(s.skip(c1)) {
                None => None,
                Some((b, c2)) => Some((((i as usize), b), c1 + c2)),
            }
        } else {
            None
        },
    }
}

pub proof fn lemma_dec_enc_chunk_data(v: (usize, Seq<u8>), rest: Seq<u8>)
    requires
        v.1.len() <= usize::MAX,
    ensures
        enc_chunk_data(v).len() == 16 + v.1.len(),
        dec_chunk_data(enc_chunk_data(v) + rest) == Some((v, enc_chunk_data(v).len() as int)),
{
    let s = enc_chunk_data(v) + rest;
    assert(s =~= enc_u64(v.0 as u64) + (enc_bytes(v.1) + rest));
    lemma_dec_enc_u64(v.0 as u64, enc_bytes(v.1) + rest);
    assert(s.skip(8) =~= enc_bytes(v.1) + rest);
    lemma_dec_enc_bytes(v.1, rest);
}

pub open spec fn enc_chunk_datas_rec(vs: Seq<(usize, Seq<u8>)>) -> Seq<u8>
    decreases vs.len(),
{
    if vs.len() == 0 {
        Seq::<u8>::empty()
    } else {
        enc_chunk_data(vs[0]) + enc_chunk_datas_rec(vs.drop_first())
    }
}

pub open spec fn dec_chunk_datas_rec(s: Seq<u8>, n: int) -> Option<(Seq<(usize, Seq<u8>)>, int)>
    decreases n,
{
    if n <= 0 {
        Some((Seq::<(usize, Seq<u8>)>::empty(), 0int))
    } else {
        match dec_chunk_data(s) {
            None => None,
            Some((v, c)) => match dec_chunk_datas_rec(s.skip(c), n - 1) {
                None => None,
                Some((tail, m)) => Some((seq![v] + tail, c + m)),
            },
        }
    }
}

/// True when every payload in the sequence has a length a vector can hold.
pub open spec fn chunk_datas_fit(vs: Seq<(usize, Seq<u8>)>) -> bool {
    forall|i: int| 0 <= i < vs.len() ==> #[trigger] vs[i].1.len() <= usize::MAX
}

pub proof fn lemma_dec_enc_chunk_datas_rec(vs: Seq<(usize, Seq<u8>)>, rest: Seq<u8>)
    requires
        chunk_datas_fit(vs),
    ensures
        dec_chunk_datas_rec(enc_chunk_datas_rec(vs) + rest, vs.len() as int) == Some(
            (vs, enc_chunk_datas_rec(vs).len() as int),
        ),
    decreases vs.len(),
{
    if vs.len() == 0 {
        assert(enc_chunk_datas_rec(vs) + rest =~= rest);
    } else {
        let head = vs[0];
        let tail = vs.drop_first();
        let s = enc_chunk_datas_rec(vs) + rest;
        assert(s =~= enc_chunk_data(head) + (enc_chunk_datas_rec(tail) + rest));
        lemma_dec_enc_chunk_data(head, enc_chunk_datas_rec(tail) + rest);
        assert(s.skip(enc_chunk_data(head).len() as int) =~= enc_chunk_datas_rec(tail) + rest);
        lemma_dec_enc_chunk_datas_rec(tail, rest);
        assert(seq![head] + tail =~= vs);
    }
}

pub proof fn lemma_enc_chunk_datas_push(vs: Seq<(usize, Seq<u8>)>, v: (usize, Seq<u8>))
    ensures
        enc_chunk_datas_rec(vs.push(v)) == enc_chunk_datas_rec(vs) + enc_chunk_data(v),
    decreases vs.len(),
{
    let q = vs.push(v);
    if vs.len() == 0 {
        assert(q[0] == v);
        assert(q.drop_first() =~= Seq::<(usize, Seq<u8>)>::empty());
        assert(enc_chunk_datas_rec(q) == enc_chunk_data(v) + enc_chunk_datas_rec(q.drop_first()));
        assert(enc_chunk_datas_rec(q.drop_first()) == Seq::<u8>::empty());
        assert(enc_chunk_datas_rec(q) =~= enc_chunk_datas_rec(vs) + enc_chunk_data(v));
    } else {
        assert(q.drop_first() =~= vs.drop_first().push(v));
        lemma_enc_chunk_datas_push(vs.drop_first(), v);
        assert(q[0] == vs[0]);
        assert(enc_chunk_datas_rec(q) == enc_chunk_data(vs[0]) + enc_chunk_datas_rec(
            q.drop_first(),
        ));
        assert(enc_chunk_datas_rec(q) =~= enc_chunk_datas_rec(vs) + enc_chunk_data(v));
    }
}

pub open spec fn enc_chunk_data_list(vs: Seq<(usize, Seq<u8>)>) -> Seq<u8> {
    enc_u64(vs.len() as u64) + enc_chunk_datas_rec(vs)
}

pub open spec fn dec_chunk_data_list(s: Seq<u8>) -> Option<(Seq<(usize, Seq<u8>)>, int)> {
    match dec_u64(s) {
        None => None,
        Some((n, c)) => match dec_chunk_datas_rec(s.skip(c), n as int) {
            None => None,
            Some((vs, m)) => Some((vs, c + m)),
        },
    }
}

pub proof fn lemma_dec_enc_chunk_data_list(vs: Seq<(usize, Seq<u8>)>, rest: Seq<u8>)
    requires
        vs.len() <= usize::MAX,
        chunk_datas_fit(vs),
    ensures
        dec_chunk_data_list(enc_chunk_data_list(vs) + rest) == Some(
            (vs, enc_chunk_data_list(vs).len() as int),
        ),
{
    let s = enc_chunk_data_list(vs) + rest;
    assert(s =~= enc_u64(vs.len() as u64) + (enc_chunk_datas_rec(vs) + rest));
    lemma_dec_enc_u64(vs.len() as u64, enc_chunk_datas_rec(vs) + rest);
    assert(s.skip(8) =~= enc_chunk_datas_rec(vs) + rest);
    lemma_dec_enc_chunk_datas_rec(vs, rest);
}

pub fn write_chunk_data_list(out: &mut Vec<u8>, vs: &Vec<(usize, Vec<u8>)>)
    ensures
        final(out)@ == old(out)@ + enc_chunk_data_list(crate::message::chunk_datas_view(vs@)),
{
    write_u64(out, vs.len() as u64);
    let ghost views = crate::message::chunk_datas_view(vs@);
    let ghost base = out@;
    let mut i: usize = 0;
    while i < vs.len()
        invariant
            0 <= i <= vs@.len(),
            views == crate::message::chunk_datas_view(vs@),
            views.len() == vs@.len(),
            forall|k: int|
                0 <= k < vs@.len() ==> views[k] == (vs@[k].0, vs@[k].1@),
            out@ == base + enc_chunk_datas_rec(views.take(i as int)),
        decreases vs@.len() - i,
    {
        let (idx, data) = &vs[i];
        write_u64(out, *idx as u64);
        write_bytes(out, data);
        proof {
            lemma_enc_chunk_datas_push(views.take(i as int), views[i as int]);
            assert(views.take(i + 1) =~= views.take(i as int).push(views[i as int]));
            assert(out@ =~= base + enc_chunk_datas_rec(views.take(i + 1)));
        }
        i = i + 1;
    }
    proof {
        assert(views.take(views.len() as int) =~= views);
    }
}

pub fn read_chunk_datas_rec(bytes: &Vec<u8>, pos: usize, n: u64) -> (r: Option<
    (Vec<(usize, Vec<u8>)>, usize),
>)
    requires
        pos <= bytes@.len(),
    ensures
        match r {
            Some((v, end)) => pos <= end <= bytes@.len() && dec_chunk_datas_rec(
                bytes@.skip(pos as int),
                n as int,
            ) == Some((crate::message::chunk_datas_view(v@), end - pos)),
            None => dec_chunk_datas_rec(bytes@.skip(pos as int), n as int) is None,
        },
    decreases n,
{
    if n == 0 {
        let empty: Vec<(usize, Vec<u8>)> = Vec::new();
        proof {
            assert(crate::message::chunk_datas_view(empty@) =~= Seq::<(usize, Seq<u8>)>::empty());
        }
        return Some((empty, pos));
    }
    let s0 = Ghost(bytes@.skip(pos as int));
    match read_u64(bytes, pos) {
        None => None,
        Some((iv, pos1)) => {
            if iv > (usize::MAX as u64) {
                return None;
            }
            proof {
                assert(s0@.skip(8) =~= bytes@.skip(pos1 as int));
            }
            match read_bytes(bytes, pos1) {
                None => None,
                Some((data, pos2)) => {
                    proof {
                        assert(s0@.skip(pos2 - pos) =~= bytes@.skip(pos2 as int));
                    }
                    match read_chunk_datas_rec(bytes, pos2, n - 1) {
                        None => None,
                        Some((mut v, end)) => {
                            let ghost tail_views = crate::message::chunk_datas_view(v@);
                            let ghost dv = data@;
                            v.insert(0, (iv as usize, data));
                            proof {
                                assert(crate::message::chunk_datas_view(v@) =~= seq![
                                    ((iv as usize), dv),
                                ] + tail_views);
                            }
                            Some((v, end))
                        },
                    }
                },
            }
        },
    }
}

pub fn read_chunk_data_list(bytes: &Vec<u8>, pos: usize) -> (r: Option<
    (Vec<(usize, Vec<u8>)>, usize),
>)
    requires
        pos <= bytes@.len(),
    ensures
        match r {
            Some((v, end)) => pos <= end <= bytes@.len() && dec_chunk_data_list(
                bytes@.skip(pos as int),
            ) == Some((crate::message::chunk_datas_view(v@), end - pos)),
            None => dec_chunk_data_list(bytes@.skip(pos as int)) is None,
        },
{
    match read_u64(bytes, pos) {
        None => None,
        Some((n, pos1)) => {
            proof {
                assert(bytes@.skip(pos as int).skip(8) =~= bytes@.skip(pos1 as int));
            }
            read_chunk_datas_rec(bytes, pos1, n)
        },
    }
}

// ---------- lists of file chunks, and the manifest ----------
pub open spec fn enc_chunks_rec(cs: Seq<crate::chunks::FileChunk>) -> Seq<u8>
    decreases cs.len(),
{
    if cs.len() == 0 {
        Seq::<u8>::empty()
    } else {
        enc_chunk(cs[0]) + enc_chunks_rec(cs.drop_first())
    }
}

pub open spec fn dec_chunks_rec(s: Seq<u8>, n: int) -> Option<(Seq<crate::chunks::FileChunk>, int)>
    decreases n,
{
    if n <= 0 {
        Some((Seq::<crate::chunks::FileChunk>::empty(), 0int))
    } else {
        match dec_chunk(s) {
            None => None,
            Some((c, k)) => match dec_chunks_rec(s.skip(k), n - 1) {
                None => None,
                Some((tail, m)) => Some((seq![c] + tail, k + m)),
            },
        }
    }
}

pub proof fn lemma_dec_enc_chunks_rec(cs: Seq<crate::chunks::FileChunk>, rest: Seq<u8>)
    ensures
        enc_chunks_rec(cs).len() == 41 * cs.len(),
        dec_chunks_rec(enc_chunks_rec(cs) + rest, cs.len() as int) == Some(
            (cs, enc_chunks_rec(cs).len() as int),
        ),
    decreases cs.len(),
{
    if cs.len() == 0 {
        assert(enc_chunks_rec(cs) + rest =~= rest);
    } else {
        let head = cs[0];
        let tail = cs.drop_first();
        let s = enc_chunks_rec(cs) + rest;
        assert(s =~= enc_chunk(head) + (enc_chunks_rec(tail) + rest));
        lemma_dec_enc_chunk(head, enc_chunks_rec(tail) + rest);
        assert(s.skip(41) =~= enc_chunks_rec(tail) + rest);
        lemma_dec_enc_chunks_rec(tail, rest);
        assert(seq![head] + tail =~= cs);
    }
}

pub proof fn lemma_enc_chunks_push(cs: Seq<crate::chunks::FileChunk>, c: crate::chunks::FileChunk)
    ensures
        enc_chunks_rec(cs.push(c)) == enc_chunks_rec(cs) + enc_chunk(c),
    decreases cs.len(),
{
    let q = cs.push(c);
    if cs.len() == 0 {
        assert(q[0] == c);
        assert(q.drop_first() =~= Seq::<crate::chunks::FileChunk>::empty());
        assert(enc_chunks_rec(q) == enc_chunk(c) + enc_chunks_rec(q.drop_first()));
        assert(enc_chunks_rec(q.drop_first()) == Seq::<u8>::empty());
        assert(enc_chunks_rec(q) =~= enc_chunks_rec(cs) + enc_chunk(c));
    } else {
        assert(q.drop_first() =~= cs.drop_first().push(c));
        lemma_enc_chunks_push(cs.drop_first(), c);
        assert(q[0] == cs[0]);
        assert(enc_chunks_rec(q) == enc_chunk(cs[0]) + enc_chunks_rec(q.drop_first()));
        assert(enc_chunks_rec(q) =~= enc_chunks_rec(cs) + enc_chunk(c));
    }
}

pub open spec fn enc_metadata(m: crate::message::MetadataView) -> Seq<u8> {
    enc_u64(m.chunks.len() as u64) + enc_chunks_rec(m.chunks) + enc_hash(m.file_hash) + enc_u64(
        m.chunks_downloaded as u64,
    )
}

pub open spec fn dec_metadata(s: Seq<u8>) -> Option<(crate::message::MetadataView, int)> {
    match dec_u64(s) {
        None => None,
        Some((n, c1)) => match dec_chunks_rec(s.skip(c1), n as int) {
            None => None,
            Some((chunks, c2)) => match dec_hash(s.skip(c1 + c2)) {
                None => None,
                Some((file_hash, c3)) => match dec_u64(s.skip(c1 + c2 + c3)) {
                    None => None,
                    Some((d, c4)) => if d <= usize::MAX {
                        Some(
                            (
                                crate::message::MetadataView {
                                    chunks,
                                    file_hash,
                                    chunks_downloaded: d as usize,
                                },
                                c1 + c2 + c3 + c4,
                            ),
                        )
                    } else {
                        None
                    },
                },
            },
        },
    }
}

pub proof fn lemma_dec_enc_metadata(m: crate::message::MetadataView, rest: Seq<u8>)
    requires
        m.chunks.len() <= usize::MAX,
    ensures
        enc_metadata(m).len() == 48 + 41 * m.chunks.len(),
        dec_metadata(enc_metadata(m) + rest) == Some((m, enc_metadata(m).len() as int)),
{
    let s = enc_metadata(m) + rest;
    let r3 = enc_u64(m.chunks_downloaded as u64) + rest;
    let r2 = enc_hash(m.file_hash) + r3;
    let r1 = enc_chunks_rec(m.chunks) + r2;
    lemma_dec_enc_chunks_rec(m.chunks, r2);
    assert(s =~= enc_u64(m.chunks.len() as u64) + r1);
    lemma_dec_enc_u64(m.chunks.len() as u64, r1);
    assert(s.skip(8) =~= r1);
    assert(s.skip(8 + 41 * (m.chunks.len() as int)) =~= r2);
    lemma_dec_enc_hash(m.file_hash, r3);
    assert(s.skip(8 + 41 * (m.chunks.len() as int) + 32) =~= r3);
    lemma_dec_enc_u64(m.chunks_downloaded as u64, rest);
    assert(crate::message::MetadataView {
        chunks: m.chunks,
        file_hash: m.file_hash,
        chunks_downloaded: m.chunks_downloaded,
    } =~= m);
}

pub fn write_metadata(out: &mut Vec<u8>, m: &crate::chunks::DownloadMetadata)
    ensures
        final(out)@ == old(out)@ + enc_metadata(m@),
{
    write_u64(out, m.file_chunks.len() as u64);
    let ghost base = out@;
    let mut i: usize = 0;
    while i < m.file_chunks.len()
        invariant
            0 <= i <= m.file_chunks@.len(),
            out@ == base + enc_chunks_rec(m.file_chunks@.take(i as int)),
        decreases m.file_chunks@.len() - i,
    {
        write_chunk(out, &m.file_chunks[i]);
        proof {
            lemma_enc_chunks_push(m.file_chunks@.take(i as int), m.file_chunks@[i as int]);
            assert(m.file_chunks@.take(i + 1) =~= m.file_chunks@.take(i as int).push(
                m.file_chunks@[i as int],
            ));
        }
        i = i + 1;
    }
    proof {
        assert(m.file_chunks@.take(m.file_chunks@.len() as int) =~= m.file_chunks@);
    }
    write_hash(out, m.file_hash);
    write_u64(out, m.chunks_downloaded as u64);
    proof {
        assert(final(out)@ =~= old(out)@ + enc_metadata(m@));
    }
}

pub fn read_chunks_rec(bytes: &Vec<u8>, pos: usize, n: u64) -> (r: Option<
    (Vec<crate::chunks::FileChunk>, usize),
>)
    requires
        pos <= bytes@.len(),
    ensures
        match r {
            Some((v, end)) => pos <= end <= bytes@.len() && dec_chunks_rec(
                bytes@.skip(pos as int),
                n as int,
            ) == Some((v@, end - pos)),
            None => dec_chunks_rec(bytes@.skip(pos as int), n as int) is None,
        },
    decreases n,
{
    if n == 0 {
        let empty: Vec<crate::chunks::FileChunk> = Vec::new();
        proof {
            assert(empty@ =~= Seq::<crate::chunks::FileChunk>::empty());
        }
        return Some((empty, pos));
    }
    match read_chunk(bytes, pos) {
        None => None,
        Some((c, pos1)) => {
            proof {
                assert(bytes@.skip(pos as int).skip(pos1 - pos) =~= bytes@.skip(pos1 as int));
            }
            match read_chunks_rec(bytes, pos1, n - 1) {
                None => None,
                Some((mut v, end)) => {
                    v.insert(0, c);
                    proof {
                        assert(v@ =~= seq![c] + v@.drop_first());
                    }
                    Some((v, end))
                },
            }
        },
    }
}

pub fn read_metadata(bytes: &Vec<u8>, pos: usize) -> (r: Option<
    (crate::chunks::DownloadMetadata, usize),
>)
    requires
        pos <= bytes@.len(),
    ensures
        match r {
            Some((v, end)) => pos <= end <= bytes@.len() && dec_metadata(bytes@.skip(pos as int))
                == Some((v@, end - pos)),
            None => dec_metadata(bytes@.skip(pos as int)) is None,
        },
{
    let s0 = Ghost(bytes@.skip(pos as int));
    match read_u64(bytes, pos) {
        None => None,
        Some((n, pos1)) => {
            proof {
                assert(s0@.skip(8) =~= bytes@.skip(pos1 as int));
            }
            match read_chunks_rec(bytes, pos1, n) {
                None => None,
                Some((chunks, pos2)) => {
                    proof {
                        assert(s0@.skip(pos2 - pos) =~= bytes@.skip(pos2 as int));
                    }
                    match read_hash(bytes, pos2) {
                        None => None,
                        Some((file_hash, pos3)) => {
                            proof {
                                assert(s0@.skip(pos3 - pos) =~= bytes@.skip(pos3 as int));
                            }
                            match read_u64(bytes, pos3) {
                                None => None,
                                Some((d, pos4)) => {
                                    if d > (usize::MAX as u64) {
                                        return None;
                                    }
                                    Some(
                                        (
                                            crate::chunks::DownloadMetadata {
                                                file_chunks: chunks,
                                                file_hash,
                                                chunks_downloaded: d as usize,
                                            },
                                            pos4,
                                        ),
                                    )
                                },
                            }
                        },
                    }
                },
            }
        },
    }
}

} // verus!

verus! {

// ---------- the optional file-name list of ListFiles ----------
pub open spec fn enc_opt_strings(o: Option<Seq<Seq<char>>>) -> Seq<u8> {
    match o {
        None => seq![0u8],
        Some(ss) => seq![1u8] + enc_string_list(ss),
    }
}

pub open spec fn dec_opt_strings(s: Seq<u8>) -> Option<(Option<Seq<Seq<char>>>, int)> {
    if s.len() < 1 {
        None
    } else if s[0] == 0u8 {
        Some((None, 1int))
    } else if s[0] == 1u8 {
        match dec_string_list(s.skip(1)) {
            None => None,
            Some((ss, m)) => Some((Some(ss), 1 + m)),
        }
    } else {
        None
    }
}

pub proof fn lemma_dec_enc_opt_strings(o: Option<Seq<Seq<char>>>, rest: Seq<u8>)
    requires
        o matches Some(ss) ==> ss.len() <= usize::MAX && strings_fit(ss),
    ensures
        dec_opt_strings(enc_opt_strings(o) + rest) == Some((o, enc_opt_strings(o).len() as int)),
{
    let s = enc_opt_strings(o) + rest;
    match o {
        None => {
            assert(s[0] == 0u8);
        },
        Some(ss) => {
            assert(s[0] == 1u8);
            assert(s.skip(1) =~= enc_string_list(ss) + rest);
            lemma_dec_enc_string_list(ss, rest);
        },
    }
}

// ---------- whole messages ----------
/// The byte encoding of a wire message: a tag byte, then the fields.
pub open spec fn enc_msg(v: crate::message::MessageView) -> Seq<u8> {
    match v {
        crate::message::MessageView::Hello(p, ask) => seq![0u8] + enc_peer(p) + enc_bool(ask),
        crate::message::MessageView::ConnectionAccepted(ps) => seq![1u8] + enc_peer_list(ps),
        crate::message::MessageView::ConnectionRejected(ps) => seq![2u8] + enc_peer_list(ps),
        crate::message::MessageView::NewPeer(p, tried, informed) => seq![3u8] + enc_peer(p)
            + enc_peer_list(tried) + enc_peer_list(informed),
        crate::message::MessageView::ImAlive => seq![4u8],
        crate::message::MessageView::ListPeers(ps) => seq![5u8] + enc_peer_list(ps),
        crate::message::MessageView::ListFiles(p, files) => seq![6u8] + enc_peer(p)
            + enc_opt_strings(files),
        crate::message::MessageView::AskForFile(name, p) => seq![7u8] + enc_string(name)
            + enc_peer(p),
        crate::message::MessageView::SendMetadata(name, p, size, dm) => seq![8u8] + enc_string(
            name,
        ) + enc_peer(p) + enc_u64(size) + enc_metadata(dm),
        crate::message::MessageView::RequestFileChunks(p, name, reqs) => seq![9u8] + enc_peer(p)
            + enc_string(name) + enc_req_list(reqs),
        crate::message::MessageView::SendFileChunks(name, datas) => seq![10u8] + enc_string(name)
            + enc_chunk_data_list(datas),
    }
}

/// Decoding a message from the front of a byte string.
pub open spec fn dec_msg(s: Seq<u8>) -> Option<(crate::message::MessageView, int)> {
    if s.len() < 1 {
        None
    } else {
        let b = s.skip(1);
        if s[0] == 0u8 {
            match dec_peer(b) {
                None => None,
                Some((p, c1)) => match dec_bool(b.skip(c1)) {
                    None => None,
                    Some((ask, c2)) => Some(
                        (crate::message::MessageView::Hello(p, ask), 1 + c1 + c2),
                    ),
                },
            }
        } else if s[0] == 1u8 {
            match dec_peer_list(b) {
                None => None,
                Some((ps, c)) => Some(
                    (crate::message::MessageView::ConnectionAccepted(ps), 1 + c),
                ),
            }
        } else if s[0] == 2u8 {
            match dec_peer_list(b) {
                None => None,
                Some((ps, c)) => Some(
                    (crate::message::MessageView::ConnectionRejected(ps), 1 + c),
                ),
            }
        } else if s[0] == 3u8 {
            match dec_peer(b) {
                None => None,
                Some((p, c1)) => match dec_peer_list(b.skip(c1)) {
                    None => None,
                    Some((tried, c2)) => match dec_peer_list(b.skip(c1 + c2)) {
                        None => None,
                        Some((informed, c3)) => Some(
                            (
                                crate::message::MessageView::NewPeer(p, tried, informed),
                                1 + c1 + c2 + c3,
                            ),
                        ),
                    },
                },
            }
        } else if s[0] == 4u8 {
            Some((crate::message::MessageView::ImAlive, 1int))
        } else if s[0] == 5u8 {
            match dec_peer_list(b) {
                None => None,
                Some((ps, c)) => Some((crate::message::MessageView::ListPeers(ps), 1 + c)),
            }
        } else if s[0] == 6u8 {
            match dec_peer(b) {
                None => None,
                Some((p, c1)) => match dec_opt_strings(b.skip(c1)) {
                    None => None,
                    Some((files, c2)) => Some(
                        (crate::message::MessageView::ListFiles(p, files), 1 + c1 + c2),
                    ),
                },
            }
        } else if s[0] == 7u8 {
            match dec_string(b) {
                None => None,
                Some((name, c1)) => match dec_peer(b.skip(c1)) {
                    None => None,
                    Some((p, c2)) => Some(
                        (crate::message::MessageView::AskForFile(name, p), 1 + c1 + c2),
                    ),
                },
            }
        } else if s[0] == 8u8 {
            match dec_string(b) {
                None => None,
                Some((name, c1)) => match dec_peer(b.skip(c1)) {
                    None => None,
                    Some((p, c2)) => match dec_u64(b.skip(c1 + c2)) {
                        None => None,
                        Some((size, c3)) => match dec_metadata(b.skip(c1 + c2 + c3)) {
                            None => None,
                            Some((dm, c4)) => Some(
                                (
                                    crate::message::MessageView::SendMetadata(name, p, size, dm),
                                    1 + c1 + c2 + c3 + c4,
                                ),
                            ),
                        },
                    },
                },
            }
        } else if s[0] == 9u8 {
            match dec_peer(b) {
                None => None,
                Some((p, c1)) => match dec_string(b.skip(c1)) {
                    None => None,
                    Some((name, c2)) => match dec_req_list(b.skip(c1 + c2)) {
                        None => None,
                        Some((reqs, c3)) => Some(
                            (
                                crate::message::MessageView::RequestFileChunks(p, name, reqs),
                                1 + c1 + c2 + c3,
                            ),
                        ),
                    },
                },
            }
        } else if s[0] == 10u8 {
            match dec_string(b) {
                None => None,
                Some((name, c1)) => match dec_chunk_data_list(b.skip(c1)) {
                    None => None,
                    Some((datas, c2)) => Some(
                        (
                            crate::message::MessageView::SendFileChunks(name, datas),
                            1 + c1 + c2,
                        ),
                    ),
                },
            }
        } else {
            None
        }
    }
}

/// Decoding a complete message: every byte of the string must be used.
pub open spec fn spec_decode_message(s: Seq<u8>) -> Option<crate::message::MessageView> {
    match dec_msg(s) {
        None => None,
        Some((v, n)) => if n == s.len() {
            Some(v)
        } else {
            None
        },
    }
}

/// True when every collection inside the message has a length a vector or
/// string can hold; the view of any executable message satisfies it.
pub open spec fn msg_fits(v: crate::message::MessageView) -> bool {
    match v {
        crate::message::MessageView::Hello(_, _) => true,
        crate::message::MessageView::ConnectionAccepted(ps) => ps.len() <= usize::MAX,
        crate::message::MessageView::ConnectionRejected(ps) => ps.len() <= usize::MAX,
        crate::message::MessageView::NewPeer(_, tried, informed) => tried.len() <= usize::MAX
            && informed.len() <= usize::MAX,
        crate::message::MessageView::ImAlive => true,
        crate::message::MessageView::ListPeers(ps) => ps.len() <= usize::MAX,
        crate::message::MessageView::ListFiles(_, files) => match files {
            None => true,
            Some(ss) => ss.len() <= usize::MAX && strings_fit(ss),
        },
        crate::message::MessageView::AskForFile(name, _) => name.len() <= usize::MAX,
        crate::message::MessageView::SendMetadata(name, _, _, dm) => name.len() <= usize::MAX
            && dm.chunks.len() <= usize::MAX,
        crate::message::MessageView::RequestFileChunks(_, name, reqs) => name.len() <= usize::MAX
            && reqs.len() <= usize::MAX,
        crate::message::MessageView::SendFileChunks(name, datas) => name.len() <= usize::MAX
            && datas.len() <= usize::MAX && chunk_datas_fit(datas),
    }
}

/// Encoding then decoding any wire message yields the original value.
#[verifier::rlimit(100)]
#[verifier::spinoff_prover]
pub proof fn lemma_message_round_trip(v: crate::message::MessageView)
    requires
        msg_fits(v),
    ensures
        spec_decode_message(enc_msg(v)) == Some(v),
{
    let s = enc_msg(v);
    match v {
        crate::message::MessageView::Hello(p, ask) => {
            assert(s.skip(1) =~= enc_peer(p) + (enc_bool(ask) + Seq::<u8>::empty()));
            lemma_dec_enc_peer(p, enc_bool(ask) + Seq::<u8>::empty());
            assert(s.skip(1).skip(6) =~= enc_bool(ask) + Seq::<u8>::empty());
            lemma_dec_enc_bool(ask, Seq::<u8>::empty());
        },
        crate::message::MessageView::ConnectionAccepted(ps) => {
            assert(s.skip(1) =~= enc_peer_list(ps) + Seq::<u8>::empty());
            lemma_dec_enc_peer_list(ps, Seq::<u8>::empty());
        },
        crate::message::MessageView::ConnectionRejected(ps) => {
            assert(s.skip(1) =~= enc_peer_list(ps) + Seq::<u8>::empty());
            lemma_dec_enc_peer_list(ps, Seq::<u8>::empty());
        },
        crate::message::MessageView::NewPeer(p, tried, informed) => {
            let r2 = enc_peer_list(informed) + Seq::<u8>::empty();
            let r1 = enc_peer_list(tried) + r2;
            assert(s.skip(1) =~= enc_peer(p) + r1);
            lemma_dec_enc_peer(p, r1);
            assert(s.skip(1).skip(6) =~= r1);
            lemma_dec_enc_peer_list(tried, r2);
            assert(s.skip(1).skip(6 + enc_peer_list(tried).len() as int) =~= r2);
            lemma_dec_enc_peer_list(informed, Seq::<u8>::empty());
        },
        crate::message::MessageView::ImAlive => {
            assert(s.len() == 1);
        },
        crate::message::MessageView::ListPeers(ps) => {
            assert(s.skip(1) =~= enc_peer_list(ps) + Seq::<u8>::empty());
            lemma_dec_enc_peer_list(ps, Seq::<u8>::empty());
        },
        crate::message::MessageView::ListFiles(p, files) => {
            let r1 = enc_opt_strings(files) + Seq::<u8>::empty();
            assert(s.skip(1) =~= enc_peer(p) + r1);
            lemma_dec_enc_peer(p, r1);
            assert(s.skip(1).skip(6) =~= r1);
            lemma_dec_enc_opt_strings(files, Seq::<u8>::empty());
        },
        crate::message::MessageView::AskForFile(name, p) => {
            let r1 = enc_peer(p) + Seq::<u8>::empty();
            assert(s.skip(1) =~= enc_string(name) + r1);
            lemma_dec_enc_string(name, r1);
            assert(s.skip(1).skip(enc_string(name).len() as int) =~= r1);
            lemma_dec_enc_peer(p, Seq::<u8>::empty());
        },
        crate::message::MessageView::SendMetadata(name, p, size, dm) => {
            let r3 = enc_metadata(dm) + Seq::<u8>::empty();
            let r2 = enc_u64(size) + r3;
            let r1 = enc_peer(p) + r2;
            assert(s.skip(1) =~= enc_string(name) + r1);
            lemma_dec_enc_string(name, r1);
            let c1 = enc_string(name).len() as int;
            assert(s.skip(1).skip(c1) =~= r1);
            lemma_dec_enc_peer(p, r2);
            assert(s.skip(1).skip(c1 + 6) =~= r2);
            lemma_dec_enc_u64(size, r3);
            assert(s.skip(1).skip(c1 + 6 + 8) =~= r3);
            lemma_dec_enc_metadata(dm, Seq::<u8>::empty());
        },
        crate::message::MessageView::RequestFileChunks(p, name, reqs) => {
            let r2 = enc_req_list(reqs) + Seq::<u8>::empty();
            let r1 = enc_string(name) + r2;
            assert(s.skip(1) =~= enc_peer(p) + r1);
            lemma_dec_enc_peer(p, r1);
            assert(s.skip(1).skip(6) =~= r1);
            lemma_dec_enc_string(name, r2);
            assert(s.skip(1).skip(6 + enc_string(name).len() as int) =~= r2);
            lemma_dec_enc_req_list(reqs, Seq::<u8>::empty());
        },
        crate::message::MessageView::SendFileChunks(name, datas) => {
            let r1 = enc_chunk_data_list(datas) + Seq::<u8>::empty();
            assert(s.skip(1) =~= enc_string(name) + r1);
            lemma_dec_enc_string(name, r1);
            assert(s.skip(1).skip(enc_string(name).len() as int) =~= r1);
            lemma_dec_enc_chunk_data_list(datas, Seq::<u8>::empty());
        },
    }
}

} // verus!

verus! {

use crate::message::NetworkMessage;

/// Encodes a wire message.
pub fn encode_message(m: &NetworkMessage) -> (r: Vec<u8>)
    ensures
        r@ == enc_msg(m@),
{
    let mut out: Vec<u8> = Vec::new();
    match m {
        NetworkMessage::Hello(p, ask) => {
            out.push(0u8);
            write_peer(&mut out, *p);
            write_bool(&mut out, *ask);
        },
        NetworkMessage::ConnectionAccepted(ps) => {
            out.push(1u8);
            write_peer_list(&mut out, ps);
        },
        NetworkMessage::ConnectionRejected(ps) => {
            out.push(2u8);
            write_peer_list(&mut out, ps);
        },
        NetworkMessage::NewPeer(p, tried, informed) => {
            out.push(3u8);
            write_peer(&mut out, *p);
            write_peer_list(&mut out, tried);
            write_peer_list(&mut out, informed);
        },
        NetworkMessage::ImAlive => {
            out.push(4u8);
        },
        NetworkMessage::ListPeers(ps) => {
            out.push(5u8);
            write_peer_list(&mut out, ps);
        },
        NetworkMessage::ListFiles(p, files) => {
            out.push(6u8);
            write_peer(&mut out, *p);
            match files {
                None => {
                    out.push(0u8);
                },
                Some(fs) => {
                    out.push(1u8);
                    write_string_list(&mut out, fs);
                },
            }
        },
        NetworkMessage::AskForFile(name, p) => {
            out.push(7u8);
            write_string(&mut out, name);
            write_peer(&mut out, *p);
        },
        NetworkMessage::SendMetadata(name, p, size, dm) => {
            out.push(8u8);
            write_string(&mut out, name);
            write_peer(&mut out, *p);
            write_u64(&mut out, *size);
            write_metadata(&mut out, dm);
        },
        NetworkMessage::RequestFileChunks(p, name, reqs) => {
            out.push(9u8);
            write_peer(&mut out, *p);
            write_string(&mut out, name);
            write_req_list(&mut out, reqs);
        },
        NetworkMessage::SendFileChunks(name, datas) => {
            out.push(10u8);
            write_string(&mut out, name);
            write_chunk_data_list(&mut out, datas);
        },
    }
    proof {
        assert(out@ =~= enc_msg(m@));
    }
    out
}

/// Decodes a wire message; every byte of the input must be used.
#[verifier::rlimit(100)]
#[verifier::spinoff_prover]
pub fn decode_message(bytes: &Vec<u8>) -> (r: Option<NetworkMessage>)
    ensures
        match r {
            Some(m) => spec_decode_message(bytes@) == Some(m@),
            None => spec_decode_message(bytes@) is None,
        },
{
    if bytes.len() < 1 {
        return None;
    }
    let ghost s = bytes@;
    let ghost b = bytes@.skip(1);
    let tag = bytes[0];
    let got: Option<(NetworkMessage, usize)> = if tag == 0 {
        match read_peer(bytes, 1) {
            None => None,
            Some((p, pos1)) => {
                proof {
                    assert(b.skip(pos1 - 1) =~= s.skip(pos1 as int));
                }
                match read_bool(bytes, pos1) {
                    None => None,
                    Some((ask, pos2)) => Some((NetworkMessage::Hello(p, ask), pos2)),
                }
            },
        }
    } else if tag == 1 {
        match read_peer_list(bytes, 1) {
            None => None,
            Some((ps, pos1)) => Some((NetworkMessage::ConnectionAccepted(ps), pos1)),
        }
    } else if tag == 2 {
        match read_peer_list(bytes, 1) {
            None => None,
            Some((ps, pos1)) => Some((NetworkMessage::ConnectionRejected(ps), pos1)),
        }
    } else if tag == 3 {
        match read_peer(bytes, 1) {
            None => None,
            Some((p, pos1)) => {
                proof {
                    assert(b.skip(pos1 - 1) =~= s.skip(pos1 as int));
                }
                match read_peer_list(bytes, pos1) {
                    None => None,
                    Some((tried, pos2)) => {
                        proof {
                            assert(b.skip(pos2 - 1) =~= s.skip(pos2 as int));
                        }
                        match read_peer_list(bytes, pos2) {
                            None => None,
                            Some((informed, pos3)) => Some(
                                (NetworkMessage::NewPeer(p, tried, informed), pos3),
                            ),
                        }
                    },
                }
            },
        }
    } else if tag == 4 {
        Some((NetworkMessage::ImAlive, 1))
    } else if tag == 5 {
        match read_peer_list(bytes, 1) {
            None => None,
            Some((ps, pos1)) => Some((NetworkMessage::ListPeers(ps), pos1)),
        }
    } else if tag == 6 {
        match read_peer(bytes, 1) {
            None => None,
            Some((p, pos1)) => {
                proof {
                    assert(b.skip(pos1 - 1) =~= s.skip(pos1 as int));
                }
                if pos1 >= bytes.len() {
                    None
                } else {
                    let fb = bytes[pos1];
                    if fb == 0 {
                        Some((NetworkMessage::ListFiles(p, None), pos1 + 1))
                    } else if fb == 1 {
                        proof {
                            assert(s.skip(pos1 as int).skip(1) =~= s.skip(pos1 + 1));
                        }
                        match read_string_list(bytes, pos1 + 1) {
                            None => None,
                            Some((fs, pos2)) => Some(
                                (NetworkMessage::ListFiles(p, Some(fs)), pos2),
                            ),
                        }
                    } else {
                        None
                    }
                }
            },
        }
    } else if tag == 7 {
        match read_string(bytes, 1) {
            None => None,
            Some((name, pos1)) => {
                proof {
                    assert(b.skip(pos1 - 1) =~= s.skip(pos1 as int));
                }
                match read_peer(bytes, pos1) {
                    None => None,
                    Some((p, pos2)) => Some((NetworkMessage::AskForFile(name, p), pos2)),
                }
            },
        }
    } else if tag == 8 {
        match read_string(bytes, 1) {
            None => None,
            Some((name, pos1)) => {
                proof {
                    assert(b.skip(pos1 - 1) =~= s.skip(pos1 as int));
                }
                match read_peer(bytes, pos1) {
                    None => None,
                    Some((p, pos2)) => {
                        proof {
                            assert(b.skip(pos2 - 1) =~= s.skip(pos2 as int));
                        }
                        match read_u64(bytes, pos2) {
                            None => None,
                            Some((size, pos3)) => {
                                proof {
                                    assert(b.skip(pos3 - 1) =~= s.skip(pos3 as int));
                                }
                                match read_metadata(bytes, pos3) {
                                    None => None,
                                    Some((dm, pos4)) => Some(
                                        (NetworkMessage::SendMetadata(name, p, size, dm), pos4),
                                    ),
                                }
                            },
                        }
                    },
                }
            },
        }
    } else if tag == 9 {
        match read_peer(bytes, 1) {
            None => None,
            Some((p, pos1)) => {
                proof {
                    assert(b.skip(pos1 - 1) =~= s.skip(pos1 as int));
                }
                match read_string(bytes, pos1) {
                    None => None,
                    Some((name, pos2)) => {
                        proof {
                            assert(b.skip(pos2 - 1) =~= s.skip(pos2 as int));
                        }
                        match read_req_list(bytes, pos2) {
                            None => None,
                            Some((reqs, pos3)) => Some(
                                (NetworkMessage::RequestFileChunks(p, name, reqs), pos3),
                            ),
                        }
                    },
                }
            },
        }
    } else if tag == 10 {
        match read_string(bytes, 1) {
            None => None,
            Some((name, pos1)) => {
                proof {
                    assert(b.skip(pos1 - 1) =~= s.skip(pos1 as int));
                }
                match read_chunk_data_list(bytes, pos1) {
                    None => None,
                    Some((datas, pos2)) => Some(
                        (NetworkMessage::SendFileChunks(name, datas), pos2),
                    ),
                }
            },
        }
    } else {
        None
    };
    match got {
        None => None,
        Some((m, end)) => {
            if end == bytes.len() {
                Some(m)
            } else {
                None
            }
        },
    }
}

} // verus!

verus! {

// ---------- the frame header: a big-endian 32-bit length prefix ----------
pub open spec fn enc_u32_be(v: u32) -> Seq<u8> {
    seq![
        ((v >> 24) & 0xff) as u8,
        ((v >> 16) & 0xff) as u8,
        ((v >> 8) & 0xff) as u8,
        (v & 0xff) as u8,
    ]
}

pub open spec fn dec_u32_be(s: Seq<u8>) -> Option<(u32, int)> {
    if s.len() >= 4 {
        Some(
            (
                ((s[0] as u32) << 24) | ((s[1] as u32) << 16) | ((s[2] as u32) << 8) | (
                s[3] as u32),
                4int,
            ),
        )
    } else {
        None
    }
}

pub proof fn lemma_dec_enc_u32_be(v: u32, rest: Seq<u8>)
    ensures
        enc_u32_be(v).len() == 4,
        dec_u32_be(enc_u32_be(v) + rest) == Some((v, 4int)),
{
    let b0 = ((v >> 24) & 0xff) as u8;
    let b1 = ((v >> 16) & 0xff) as u8;
    let b2 = ((v >> 8) & 0xff) as u8;
    let b3 = (v & 0xff) as u8;
    assert(((b0 as u32) << 24) | ((b1 as u32) << 16) | ((b2 as u32) << 8) | (b3 as u32) == v)
        by (bit_vector)
        requires
            b0 == ((v >> 24) & 0xff) as u8,
            b1 == ((v >> 16) & 0xff) as u8,
            b2 == ((v >> 8) & 0xff) as u8,
            b3 == (v & 0xff) as u8,
    ;
}

pub fn write_u32_be(out: &mut Vec<u8>, v: u32)
    ensures
        final(out)@ == old(out)@ + enc_u32_be(v),
{
    proof {
        assert((v >> 24) & 0xff < 256 && (v >> 16) & 0xff < 256 && (v >> 8) & 0xff < 256 && v
            & 0xff < 256) by (bit_vector);
    }
    out.push(((v >> 24) & 0xff) as u8);
    out.push(((v >> 16) & 0xff) as u8);
    out.push(((v >> 8) & 0xff) as u8);
    out.push((v & 0xff) as u8);
    proof {
        assert(final(out)@ =~= old(out)@ + enc_u32_be(v));
    }
}

pub fn read_u32_be(bytes: &Vec<u8>, pos: usize) -> (r: Option<(u32, usize)>)
    requires
        pos <= bytes@.len(),
    ensures
        match r {
            Some((v, end)) => pos <= end <= bytes@.len() && dec_u32_be(bytes@.skip(pos as int))
                == Some((v, end - pos)),
            None => dec_u32_be(bytes@.skip(pos as int)) is None,
        },
{
    if bytes.len() - pos >= 4 {
        let b0 = bytes[pos] as u32;
        let b1 = bytes[pos + 1] as u32;
        let b2 = bytes[pos + 2] as u32;
        let b3 = bytes[pos + 3] as u32;
        proof {
            assert((b0 << 24) | (b1 << 16) | (b2 << 8) | b3 <= u32::MAX) by (bit_vector);
        }
        Some(((b0 << 24) | (b1 << 16) | (b2 << 8) | b3, pos + 4))
    } else {
        None
    }
}

/// Frames a message for the wire: a 4-byte big-endian length prefix, then
/// the encoded message. `None` when the encoding does not fit the prefix.
pub fn encode_frame(m: &NetworkMessage) -> (r: Option<Vec<u8>>)
    ensures
        match r {
            Some(v) => enc_msg(m@).len() <= u32::MAX && v@ == enc_u32_be(
                enc_msg(m@).len() as u32,
            ) + enc_msg(m@),
            None => enc_msg(m@).len() > u32::MAX,
        },
{
    let body = encode_message(m);
    if body.len() > (u32::MAX as usize) {
        return None;
    }
    let mut out: Vec<u8> = Vec::new();
    write_u32_be(&mut out, body.len() as u32);
    out.extend_from_slice(body.as_slice());
    proof {
        assert(out@ =~= enc_u32_be(enc_msg(m@).len() as u32) + enc_msg(m@));
    }
    Some(out)
}

/// Reads the length prefix of a frame from its first four bytes.
pub fn frame_body_len(header: &Vec<u8>) -> (r: Option<u32>)
    ensures
        match r {
            Some(v) => dec_u32_be(header@) == Some((v, 4int)),
            None => dec_u32_be(header@) is None,
        },
{
    proof {
        assert(header@.skip(0) =~= header@);
    }
    match read_u32_be(header, 0) {
        None => None,
        Some((v, _)) => Some(v),
    }
}

// ---------- the discovery datagram ----------
/// The single-byte mark that opens a discovery datagram.
pub const DISCOVER_HELLO_MARK: u8 = 1;

/// The fixed size of a discovery datagram in bytes.
pub const DISCOVER_HELLO_MESSAGE_SIZE: usize = 3;

pub open spec fn enc_discover(port: u16) -> Seq<u8> {
    seq![DISCOVER_HELLO_MARK] + enc_u16(port)
}

pub open spec fn dec_discover(s: Seq<u8>) -> Option<u16> {
    if s.len() == 3 && s[0] == DISCOVER_HELLO_MARK {
        match dec_u16(s.skip(1)) {
            Some((port, _)) => Some(port),
            None => None,
        }
    } else {
        None
    }
}

pub proof fn lemma_dec_enc_discover(port: u16)
    ensures
        enc_discover(port).len() == 3,
        dec_discover(enc_discover(port)) == Some(port),
{
    lemma_dec_enc_u16(port, Seq::<u8>::empty());
    assert(enc_discover(port).skip(1) =~= enc_u16(port) + Seq::<u8>::empty());
}

/// Encodes a discovery datagram.
pub fn encode_discover_hello(d: &crate::message::DiscoverHello) -> (r: Vec<u8>)
    ensures
        r@ == enc_discover(d.listening_port),
        r@.len() == 3,
{
    let mut out: Vec<u8> = Vec::new();
    out.push(DISCOVER_HELLO_MARK);
    write_u16(&mut out, d.listening_port);
    proof {
        lemma_dec_enc_u16(d.listening_port, Seq::<u8>::empty());
        assert(out@ =~= enc_discover(d.listening_port));
    }
    out
}

/// Decodes a discovery datagram.
pub fn decode_discover_hello(bytes: &Vec<u8>) -> (r: Option<crate::message::DiscoverHello>)
    ensures
        match r {
            Some(d) => dec_discover(bytes@) == Some(d.listening_port),
            None => dec_discover(bytes@) is None,
        },
{
    if bytes.len() != 3 {
        return None;
    }
    if bytes[0] != DISCOVER_HELLO_MARK {
        return None;
    }
    proof {
        assert(bytes@.skip(1).len() == 2);
    }
    match read_u16(bytes, 1) {
        None => None,
        Some((port, _)) => Some(crate::message::DiscoverHello { listening_port: port }),
    }
}

} // verus!
