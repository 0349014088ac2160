use vstd::prelude::*;
use vstd::pervasive::VecAdditionalExecFns;
use vstd::string::StringExecFns;
use crate::protocol::ChatMessage;

verus! {

/// How many chat rooms may exist at once.
pub const ROOMS_MAX_COUNT: usize = 30;

/// One chat room: its messages in arrival order and its banned users.
pub struct ChatRoom {
    pub messages: Vec<ChatMessage>,
    pub bans: Vec<String>,
}

/// True when some room carries this name.
pub open spec fn rooms_have(rooms: Seq<(String, ChatRoom)>, name: Seq<char>) -> bool {
    exists|k: int| 0 <= k < rooms.len() && rooms[k].0@ == name
}

/// The chat-room manager: every room by name, the main room always among
/// them.
pub struct Manager {
    pub rooms: Vec<(String, ChatRoom)>,
}

impl Manager {
    /// Room names are unique and the cap is respected.
    pub open spec fn wf(self) -> bool {
        &&& forall|a: int, b: int|
            0 <= a < b < self.rooms@.len() ==> (#[trigger] self.rooms@[a]).0@
                != (#[trigger] self.rooms@[b]).0@
        &&& self.rooms@.len() <= ROOMS_MAX_COUNT
    }

    /// A manager holding only the main room.
    pub fn create() -> (r: Manager)
        ensures
            r.wf(),
            r.rooms@.len() == 1,
            r.rooms@[0].0@ == "global"@,
    {
        let mut m = Manager { rooms: Vec::new() };
        m.rooms.push(
            (String::from_str("global"), ChatRoom { messages: Vec::new(), bans: Vec::new() }),
        );
        m
    }

    /// The index of a room.
    fn find_room(&self, name: &String) -> (r: Option<usize>)
        ensures
            match r {
                Some(i) => i < self.rooms@.len() && self.rooms@[i as int].0@ == name@,
                None => !rooms_have(self.rooms@, name@),
            },
    {
        let mut i: usize = 0;
        while i < self.rooms.len()
            invariant
                0 <= i <= self.rooms@.len(),
                forall|k: int| 0 <= k < i ==> (#[trigger] self.rooms@[k]).0@ != name@,
            decreases self.rooms@.len() - i,
        {
            if self.rooms[i].0 == *name {
                return Some(i);
            }
            i = i + 1;
        }
        None
    }

    /// Opens a room; fails when the cap is reached or the name is taken.
    pub fn add_room(&mut self, name: String) -> (r: Result<(), String>)
        requires
            old(self).wf(),
        ensures
            final(self).wf(),
            r is Ok <==> (old(self).rooms@.len() < ROOMS_MAX_COUNT && !rooms_have(
                old(self).rooms@,
                name@,
            )),
            r is Ok ==> final(self).rooms@.len() == old(self).rooms@.len() + 1 && rooms_have(
                final(self).rooms@,
                name@,
            ),
            // the new room starts empty and every other room is untouched
            r is Ok ==> (forall|k: int|
                0 <= k < old(self).rooms@.len() ==> #[trigger] final(self).rooms@[k] == old(self).rooms@[k]) && final(self).rooms@.last().0@ == name@ && final(self).rooms@.last().1.messages@.len() == 0 && final(self).rooms@.last().1.bans@.len()
                == 0,
            r is Err ==> *final(self) == *old(self),
    {
        if self.rooms.len() >= ROOMS_MAX_COUNT {
            return Err(
                String::from_str("Max rooms amount in chat is reached! Cannot create new ones."),
            );
        }
        if self.find_room(&name).is_some() {
            return Err(
                String::from_str("There is already a chat room with name ").concat(name.as_str()),
            );
        }
        let ghost before = self.rooms@;
        let ghost namev = name@;
        self.rooms.push((name, ChatRoom { messages: Vec::new(), bans: Vec::new() }));
        proof {
            assert(self.rooms@[self.rooms@.len() - 1].0@ == namev);
            assert forall|a: int, b: int|
                0 <= a < b < self.rooms@.len() implies (#[trigger] self.rooms@[a]).0@
                != (#[trigger] self.rooms@[b]).0@ by {
                if b == self.rooms@.len() - 1 {
                    assert(self.rooms@[a] == before[a]);
                    if before[a].0@ == self.rooms@[b].0@ {
                        assert(rooms_have(before, self.rooms@[b].0@));
                    }
                }
            }
        }
        Ok(())
    }

    /// Renames a room; the main room keeps its name, and the new name must
    /// differ from the old one.
    #[verifier::loop_isolation(false)]
    pub fn rename_room(&mut self, old_name: String, new_name: String) -> (r: Result<(), String>)
        requires
            old(self).wf(),
        ensures
            final(self).wf(),
            r is Ok ==> rooms_have(final(self).rooms@, new_name@),
            r is Err ==> *final(self) == *old(self),
            old_name@ == new_name@ ==> r is Err,
            old_name@ == "global"@ ==> r is Err,
            !rooms_have(old(self).rooms@, old_name@) ==> r is Err,
    {
        if old_name == new_name {
            return Err(
                String::from_str("Cannot rename room: old name is the same like new name"),
            );
        }
        if old_name == String::from_str("global") {
            return Err(
                String::from_str("Cannot rename room: renaming main chat room is not possible"),
            );
        }
        if self.find_room(&old_name).is_none() {
            return Err(
                String::from_str("Cannot rename room: there is no such room: ").concat(
                    old_name.as_str(),
                ),
            );
        }
        if let Some(j) = self.find_room(&new_name) {
            let ghost pre = self.rooms@;
            self.rooms.remove(j);
            proof {
                assert forall|a: int, b: int|
                    0 <= a < b < self.rooms@.len() implies (#[trigger] self.rooms@[a]).0@
                    != (#[trigger] self.rooms@[b]).0@ by {
                    if a < j {
                        assert(self.rooms@[a] == pre[a]);
                    } else {
                        assert(self.rooms@[a] == pre[a + 1]);
                    }
                    if b < j {
                        assert(self.rooms@[b] == pre[b]);
                    } else {
                        assert(self.rooms@[b] == pre[b + 1]);
                    }
                }
                if rooms_have(self.rooms@, new_name@) {
                    let w = choose|w: int|
                        0 <= w < self.rooms@.len() && self.rooms@[w].0@ == new_name@;
                    if w < j {
                        assert(pre[w].0@ == new_name@ && pre[j as int].0@ == new_name@);
                    } else {
                        assert(pre[w + 1].0@ == new_name@ && pre[j as int].0@ == new_name@);
                    }
                }
                assert(rooms_have(self.rooms@, old_name@)) by {
                    let w0 = choose|w0: int| 0 <= w0 < pre.len() && pre[w0].0@ == old_name@;
                    if w0 < j {
                        assert(self.rooms@[w0].0@ == old_name@);
                    } else {
                        assert(w0 != j);
                        assert(self.rooms@[w0 - 1].0@ == old_name@);
                    }
                }
            }
        }
        let at = match self.find_room(&old_name) {
            None => {
                proof {
                    assert(false);
                }
                return Err(
                    String::from_str("Cannot rename room: there is no such room: ").concat(
                        old_name.as_str(),
                    ),
                );
            },
            Some(i) => i,
        };
        let ghost before = self.rooms@;
        let mut entry: (String, ChatRoom) = (
            String::new(),
            ChatRoom { messages: Vec::new(), bans: Vec::new() },
        );
        self.rooms.set_and_swap(at, &mut entry);
        let (_, room) = entry;
        self.rooms.set(at, (new_name, room));
        proof {
            let ghost rs = self.rooms@;
            assert(rs[at as int].0@ == new_name@);
            assert(rooms_have(rs, new_name@));
            assert forall|a: int, b: int|
                0 <= a < b < rs.len() implies (#[trigger] rs[a]).0@ != (#[trigger] rs[b]).0@ by {
                if a != at && b != at {
                    assert(rs[a] == before[a] && rs[b] == before[b]);
                } else if a == at {
                    assert(rs[b] == before[b]);
                    if rs[b].0@ == new_name@ {
                        assert(rooms_have(before, new_name@));
                    }
                } else {
                    assert(rs[a] == before[a]);
                    if rs[a].0@ == new_name@ {
                        assert(rooms_have(before, new_name@));
                    }
                }
            }
        }
        Ok(())
    }

    /// Closes a room; the main room cannot be closed.
    pub fn delete_room(&mut self, name: String) -> (r: Result<(), String>)
        requires
            old(self).wf(),
        ensures
            final(self).wf(),
            r is Ok <==> (name@ != "global"@ && rooms_have(old(self).rooms@, name@)),
            r is Ok ==> final(self).rooms@.len() == old(self).rooms@.len() - 1,
            r is Err ==> *final(self) == *old(self),
    {
        if name == String::from_str("global") {
            return Err(String::from_str("Cannot delete main room"));
        }
        match self.find_room(&name) {
            None => Err(
                String::from_str("Cannot delete room: there is no such room: ").concat(
                    name.as_str(),
                ),
            ),
            Some(at) => {
                let ghost before = self.rooms@;
                self.rooms.remove(at);
                proof {
                    assert forall|a: int, b: int|
                        0 <= a < b < self.rooms@.len() implies (#[trigger] self.rooms@[a]).0@
                        != (#[trigger] self.rooms@[b]).0@ by {
                        if a < at {
                            assert(self.rooms@[a] == before[a]);
                        } else {
                            assert(self.rooms@[a] == before[a + 1]);
                        }
                        if b < at {
                            assert(self.rooms@[b] == before[b]);
                        } else {
                            assert(self.rooms@[b] == before[b + 1]);
                        }
                    }
                }
                Ok(())
            },
        }
    }

    /// Posts a message to a room; a banned user cannot post.
    pub fn insert_a_message_to_room(&mut self, room_name: String, user: String, message: String) -> (r:
        Result<(), String>)
        requires
            old(self).wf(),
        ensures
            final(self).wf(),
            !rooms_have(old(self).rooms@, room_name@) ==> r is Err && *final(self) == *old(self),
            r is Err ==> final(self).rooms@.len() == old(self).rooms@.len(),
            // on success exactly the named room gains one message, by this
            // user with this text, at the end; everything else is untouched
            r is Ok ==> exists|j: int|
                0 <= j < old(self).rooms@.len() && (#[trigger] old(self).rooms@[j]).0@
                    == room_name@ && final(self).rooms@.len() == old(self).rooms@.len() && (forall|k: int|
                    0 <= k < old(self).rooms@.len() && k != j ==> #[trigger] final(self).rooms@[k]
                        == old(self).rooms@[k]) && final(self).rooms@[j].0@ == room_name@ && final(self).rooms@[j].1.messages@.len() == old(self).rooms@[j].1.messages@.len() + 1 && (
                forall|m: int|
                    0 <= m < old(self).rooms@[j].1.messages@.len() ==> #[trigger] final(self).rooms@[j].1.messages@[m] == old(self).rooms@[j].1.messages@[m]) && final(self).rooms@[j].1.messages@.last().user@ == user@ && final(self).rooms@[j].1.messages@.last().message@ == message@ && final(self).rooms@[j].1.bans == old(self).rooms@[j].1.bans,
    {
        let at = match self.find_room(&room_name) {
            None => {
                return Err(
                    String::from_str(
                        "Cannot post a message into room: there is no such room: ",
                    ).concat(room_name.as_str()),
                );
            },
            Some(i) => i,
        };
        let ghost before = self.rooms@;
        let mut entry: (String, ChatRoom) = (
            String::new(),
            ChatRoom { messages: Vec::new(), bans: Vec::new() },
        );
        self.rooms.set_and_swap(at, &mut entry);
        let (nm, mut room) = entry;
        let mut banned = false;
        let mut b: usize = 0;
        while b < room.bans.len() && !banned
            invariant
                0 <= b <= room.bans@.len(),
            decreases room.bans@.len() - b, (if banned {
                0int
            } else {
                1int
            }),
        {
            if room.bans[b] == user {
                banned = true;
            } else {
                b = b + 1;
            }
        }
        if banned {
            let msg = String::from_str("Cannot post a message into room: user ").concat(
                user.as_str(),
            ).concat(" is banned in: ").concat(room_name.as_str());
            self.rooms.set(at, (nm, room));
            proof {
                lemma_rooms_same_names(before, self.rooms@, at as int);
            }
            return Err(msg);
        }
        room.messages.push(ChatMessage::create(user, message));
        self.rooms.set(at, (nm, room));
        proof {
            lemma_rooms_same_names(before, self.rooms@, at as int);
        }
        Ok(())
    }

    /// Removes the message a user posted at a given instant.
    pub fn remove_a_message_from_room(
        &mut self,
        room_name: String,
        user: String,
        timestamp: i64,
    ) -> (r: Result<(), String>)
        requires
            old(self).wf(),
        ensures
            final(self).wf(),
            !rooms_have(old(self).rooms@, room_name@) ==> r is Err,
    {
        let at = match self.find_room(&room_name) {
            None => {
                return Err(
                    String::from_str(
                        "Cannot remove a message from room: there is no such room: ",
                    ).concat(room_name.as_str()),
                );
            },
            Some(i) => i,
        };
        let ghost before = self.rooms@;
        let mut entry: (String, ChatRoom) = (
            String::new(),
            ChatRoom { messages: Vec::new(), bans: Vec::new() },
        );
        self.rooms.set_and_swap(at, &mut entry);
        let (nm, mut room) = entry;
        let mut found = false;
        let mut m: usize = 0;
        while m < room.messages.len() && !found
            invariant
                0 <= m <= room.messages@.len(),
            decreases room.messages@.len() - m, (if found {
                0int
            } else {
                1int
            }),
        {
            if room.messages[m].get_timestamp() == timestamp && room.messages[m].get_user()
                == user {
                room.messages.remove(m);
                found = true;
            } else {
                m = m + 1;
            }
        }
        self.rooms.set(at, (nm, room));
        proof {
            lemma_rooms_same_names(before, self.rooms@, at as int);
        }
        if found {
            Ok(())
        } else {
            Err(
                String::from_str(
                    "Cannot remove a message from room: no such message in room: ",
                ).concat(room_name.as_str()),
            )
        }
    }

    /// The messages of a room, in order.
    pub fn get_messages_from_room(&self, room_name: String) -> (r: Result<Vec<ChatMessage>, String>)
        ensures
            r is Ok <==> rooms_have(self.rooms@, room_name@),
    {
        match self.find_room(&room_name) {
            None => Err(
                String::from_str(
                    "Cannot get messages from room: there is no such room: ",
                ).concat(room_name.as_str()),
            ),
            Some(at) => {
                let room = &self.rooms[at].1;
                let mut out: Vec<ChatMessage> = Vec::new();
                let mut m: usize = 0;
                while m < room.messages.len()
                    invariant
                        0 <= m <= room.messages@.len(),
                    decreases room.messages@.len() - m,
                {
                    out.push(
                        ChatMessage::with_timestamp(
                            room.messages[m].get_timestamp(),
                            room.messages[m].get_user(),
                            room.messages[m].get_message(),
                        ),
                    );
                    m = m + 1;
                }
                Ok(out)
            },
        }
    }

    /// The names of every room.
    pub fn get_rooms(&self) -> (r: Vec<String>)
        ensures
            r@.len() == self.rooms@.len(),
            forall|k: int| 0 <= k < r@.len() ==> (#[trigger] r@[k])@ == self.rooms@[k].0@,
    {
        let mut out: Vec<String> = Vec::new();
        let mut i: usize = 0;
        while i < self.rooms.len()
            invariant
                0 <= i <= self.rooms@.len(),
                out@.len() == i,
                forall|k: int| 0 <= k < i ==> (#[trigger] out@[k])@ == self.rooms@[k].0@,
            decreases self.rooms@.len() - i,
        {
            out.push(self.rooms[i].0.clone());
            i = i + 1;
        }
        out
    }

    /// Bans a user in a room; banning twice is an error.
    pub fn ban_user_in_room(&mut self, room_name: String, user: String) -> (r: Result<(), String>)
        requires
            old(self).wf(),
        ensures
            final(self).wf(),
            !rooms_have(old(self).rooms@, room_name@) ==> r is Err,
    {
        let at = match self.find_room(&room_name) {
            None => {
                return Err(
                    String::from_str("Cannot ban user: there is no such room: ").concat(
                        room_name.as_str(),
                    ),
                );
            },
            Some(i) => i,
        };
        let ghost before = self.rooms@;
        let mut entry: (String, ChatRoom) = (
            String::new(),
            ChatRoom { messages: Vec::new(), bans: Vec::new() },
        );
        self.rooms.set_and_swap(at, &mut entry);
        let (nm, mut room) = entry;
        let mut already = false;
        let mut b: usize = 0;
        while b < room.bans.len() && !already
            invariant
                0 <= b <= room.bans@.len(),
            decreases room.bans@.len() - b, (if already {
                0int
            } else {
                1int
            }),
        {
            if room.bans[b] == user {
                already = true;
            } else {
                b = b + 1;
            }
        }
        let r: Result<(), String>;
        if already {
            r = Err(
                String::from_str("User ").concat(user.as_str()).concat(
                    " is already banned in: ",
                ).concat(room_name.as_str()),
            );
        } else {
            room.bans.push(user);
            r = Ok(());
        }
        self.rooms.set(at, (nm, room));
        proof {
            lemma_rooms_same_names(before, self.rooms@, at as int);
        }
        r
    }

    /// Lifts a ban; lifting a ban that does not exist is an error.
    pub fn unban_user_in_room(&mut self, room_name: String, user: String) -> (r: Result<(), String>)
        requires
            old(self).wf(),
        ensures
            final(self).wf(),
            !rooms_have(old(self).rooms@, room_name@) ==> r is Err,
    {
        let at = match self.find_room(&room_name) {
            None => {
                return Err(
                    String::from_str("Cannot unban user: there is no such room: ").concat(
                        room_name.as_str(),
                    ),
                );
            },
            Some(i) => i,
        };
        let ghost before = self.rooms@;
        let mut entry: (String, ChatRoom) = (
            String::new(),
            ChatRoom { messages: Vec::new(), bans: Vec::new() },
        );
        self.rooms.set_and_swap(at, &mut entry);
        let (nm, mut room) = entry;
        let mut found = false;
        let mut b: usize = 0;
        while b < room.bans.len() && !found
            invariant
                0 <= b <= room.bans@.len(),
            decreases room.bans@.len() - b, (if found {
                0int
            } else {
                1int
            }),
        {
            if room.bans[b] == user {
                room.bans.remove(b);
                found = true;
            } else {
                b = b + 1;
            }
        }
        let r: Result<(), String> = if found {
            Ok(())
        } else {
            Err(
                String::from_str("User ").concat(user.as_str()).concat(" is not banned in: ")
                    .concat(room_name.as_str()),
            )
        };
        self.rooms.set(at, (nm, room));
        proof {
            lemma_rooms_same_names(before, self.rooms@, at as int);
        }
        r
    }

    /// The users banned in a room.
    pub fn get_banned_users_in_room(&self, room_name: String) -> (r: Result<Vec<String>, String>)
        ensures
            r is Ok <==> rooms_have(self.rooms@, room_name@),
    {
        match self.find_room(&room_name) {
            None => Err(
                String::from_str(
                    "Cannot get list of banned users in room: there is no such room: ",
                ).concat(room_name.as_str()),
            ),
            Some(at) => {
                let room = &self.rooms[at].1;
                let mut out: Vec<String> = Vec::new();
                let mut b: usize = 0;
                while b < room.bans.len()
                    invariant
                        0 <= b <= room.bans@.len(),
                    decreases room.bans@.len() - b,
                {
                    out.push(room.bans[b].clone());
                    b = b + 1;
                }
                Ok(out)
            },
        }
    }

    /// Replaces a room's messages wholesale.
    pub fn replace_messages_in_room(&mut self, room_name: String, messages: Vec<ChatMessage>) -> (r:
        Result<(), String>)
        requires
            old(self).wf(),
        ensures
            final(self).wf(),
            r is Ok <==> rooms_have(old(self).rooms@, room_name@),
    {
        let at = match self.find_room(&room_name) {
            None => {
                return Err(
                    String::from_str(
                        "Cannot get list of banned users in room: there is no such room: ",
                    ).concat(room_name.as_str()),
                );
            },
            Some(i) => i,
        };
        let ghost before = self.rooms@;
        let mut entry: (String, ChatRoom) = (
            String::new(),
            ChatRoom { messages: Vec::new(), bans: Vec::new() },
        );
        self.rooms.set_and_swap(at, &mut entry);
        let (nm, room) = entry;
        let bans = room.bans;
        self.rooms.set(at, (nm, ChatRoom { messages, bans }));
        proof {
            lemma_rooms_same_names(before, self.rooms@, at as int);
        }
        Ok(())
    }
}

/// Room names stay unique when one room's contents change but its name
/// does not.
proof fn lemma_rooms_same_names(
    before: Seq<(String, ChatRoom)>,
    after: Seq<(String, ChatRoom)>,
    at: int,
)
    requires
        before.len() == after.len(),
        0 <= at < before.len(),
        forall|a: int, b: int|
            0 <= a < b < before.len() ==> (#[trigger] before[a]).0@ != (#[trigger] before[b]).0@,
        forall|d: int| 0 <= d < after.len() && d != at ==> #[trigger] after[d] == before[d],
        after[at].0@ == before[at].0@,
    ensures
        forall|a: int, b: int|
            0 <= a < b < after.len() ==> (#[trigger] after[a]).0@ != (#[trigger] after[b]).0@,
{
    assert forall|a: int, b: int|
        0 <= a < b < after.len() implies (#[trigger] after[a]).0@ != (#[trigger] after[b]).0@ by {
        if a != at {
            assert(after[a] == before[a]);
        }
        if b != at {
            assert(after[b] == before[b]);
        }
    }
}

} // verus!
