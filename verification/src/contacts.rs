use vstd::prelude::*;
use vstd::string::StringExecFns;
use crate::cli::CommandType;

verus! {

/// A contact-book entry.
pub struct Contact {
    pub name: String,
    pub phone: String,
    pub email: String,
    pub address: String,
}

impl Contact {
    pub fn new(name: String, phone: String, email: String, address: String) -> (r: Contact)
        ensures
            r.name@ == name@,
            r.phone@ == phone@,
            r.email@ == email@,
            r.address@ == address@,
    {
        Contact { name, phone, email, address }
    }

    pub fn get_name(&self) -> (r: String)
        ensures
            r@ == self.name@,
    {
        self.name.clone()
    }

    pub fn get_email(&self) -> (r: String)
        ensures
            r@ == self.email@,
    {
        self.email.clone()
    }
}

/// A contact whose fields can be rewritten, each refusing an empty value.
pub trait Updatable {
    fn update_name(&mut self, new_name: &String) -> Result<(), String>;

    fn update_email(&mut self, new_email: &String) -> Result<(), String>;

    fn update_phone(&mut self, new_phone: &String) -> Result<(), String>;

    fn update_address(&mut self, new_address: &String) -> Result<(), String>;
}

impl Updatable for Contact {
    fn update_name(&mut self, new_name: &String) -> Result<(), String> {
        if new_name.as_str().is_empty() {
            return Err(String::from_str("New name cannot be empty"));
        }
        self.name = new_name.clone();
        Ok(())
    }

    fn update_email(&mut self, new_email: &String) -> Result<(), String> {
        if new_email.as_str().is_empty() {
            return Err(String::from_str("New email cannot be empty"));
        }
        self.email = new_email.clone();
        Ok(())
    }

    fn update_phone(&mut self, new_phone: &String) -> Result<(), String> {
        if new_phone.as_str().is_empty() {
            return Err(String::from_str("New phone cannot be empty"));
        }
        self.phone = new_phone.clone();
        Ok(())
    }

    fn update_address(&mut self, new_address: &String) -> Result<(), String> {
        if new_address.as_str().is_empty() {
            return Err(String::from_str("New address cannot be empty"));
        }
        self.address = new_address.clone();
        Ok(())
    }
}

/// Rewrites whichever fields of a contact the caller supplied.
pub fn update_specific_contact(
    contact: &mut Contact,
    address: &Option<String>,
    email: &Option<String>,
    phone: &Option<String>,
    name: &Option<String>,
) -> (r: Result<(), String>)
    ensures
        r is Ok,
{
    if let Some(a) = address {
        let _ = contact.update_address(a);
    }
    if let Some(e) = email {
        let _ = contact.update_email(e);
    }
    if let Some(p) = phone {
        let _ = contact.update_phone(p);
    }
    if let Some(n) = name {
        let _ = contact.update_name(n);
    }
    Ok(())
}

/// True when the book holds a contact with this name or this email.
pub open spec fn book_has(contacts: Seq<Contact>, name: Seq<char>, email: Seq<char>) -> bool {
    exists|k: int|
        0 <= k < contacts.len() && (contacts[k].name@ == name || contacts[k].email@ == email)
}

/// The contact book.
pub struct ContactManager {
    pub contacts: Vec<Contact>,
}

impl ContactManager {
    pub fn new() -> (r: ContactManager)
        ensures
            r.contacts@.len() == 0,
    {
        ContactManager { contacts: Vec::new() }
    }

    /// Runs one contact-book command; any other kind of command is
    /// refused.
    pub fn handle_command(&mut self, cmd: CommandType) -> (r: Result<(), String>)
        ensures
            cmd matches CommandType::AddContact(n, p, e, a) ==> (r is Ok <==> !book_has(
                old(self).contacts@,
                n@,
                e@,
            )),
            cmd matches CommandType::RemoveContact(ne) ==> (r is Ok <==> book_has(
                old(self).contacts@,
                ne@,
                ne@,
            )),
            cmd matches CommandType::UpdateContact(ne, a, e, p, n) ==> (r is Err <==> ne@.len()
                == 0),
            cmd matches CommandType::SearchContact(ne) ==> (r is Ok <==> book_has(
                old(self).contacts@,
                ne@,
                ne@,
            )) && *final(self) == *old(self),
            !(cmd is AddContact || cmd is RemoveContact || cmd is UpdateContact || cmd
                is SearchContact) ==> r is Err && *final(self) == *old(self),
    {
        match cmd {
            CommandType::AddContact(name, phone, email, address) => self.add_contact(
                name,
                phone,
                email,
                address,
            ),
            CommandType::UpdateContact(name_or_email, address, email, phone, name) => self
                .update_contact(name_or_email, address, email, phone, name),
            CommandType::RemoveContact(name_or_email) => self.remove_contact(name_or_email),
            CommandType::SearchContact(name_or_email) => match self.find_contact(
                &Some(name_or_email.clone()),
                &Some(name_or_email),
            ) {
                Some(_) => Ok(()),
                None => Err(String::from_str("No such contact")),
            },
            _ => Err(String::from_str("Exit command should not reach command manager")),
        }
    }

    /// The first contact whose name matches.
    pub fn find_contact_by_name(&self, name: &String) -> (r: Option<Contact>)
        ensures
            r is Some <==> exists|k: int|
                0 <= k < self.contacts@.len() && (#[trigger] self.contacts@[k]).name@ == name@,
    {
        let mut i: usize = 0;
        while i < self.contacts.len()
            invariant
                0 <= i <= self.contacts@.len(),
                forall|k: int| 0 <= k < i ==> (#[trigger] self.contacts@[k]).name@ != name@,
            decreases self.contacts@.len() - i,
        {
            if self.contacts[i].name == *name {
                let c = Contact {
                    name: self.contacts[i].name.clone(),
                    phone: self.contacts[i].phone.clone(),
                    email: self.contacts[i].email.clone(),
                    address: self.contacts[i].address.clone(),
                };
                proof {
                    assert(self.contacts@[i as int].name@ == name@);
                }
                return Some(c);
            }
            i = i + 1;
        }
        None
    }

    /// The first contact whose email matches.
    pub fn find_contact_by_email(&self, email: &String) -> (r: Option<Contact>)
        ensures
            r is Some <==> exists|k: int|
                0 <= k < self.contacts@.len() && (#[trigger] self.contacts@[k]).email@ == email@,
    {
        let mut i: usize = 0;
        while i < self.contacts.len()
            invariant
                0 <= i <= self.contacts@.len(),
                forall|k: int| 0 <= k < i ==> (#[trigger] self.contacts@[k]).email@ != email@,
            decreases self.contacts@.len() - i,
        {
            if self.contacts[i].email == *email {
                let c = Contact {
                    name: self.contacts[i].name.clone(),
                    phone: self.contacts[i].phone.clone(),
                    email: self.contacts[i].email.clone(),
                    address: self.contacts[i].address.clone(),
                };
                proof {
                    assert(self.contacts@[i as int].email@ == email@);
                }
                return Some(c);
            }
            i = i + 1;
        }
        None
    }

    /// A contact found by name first, then by email.
    pub fn find_contact(&self, name: &Option<String>, email: &Option<String>) -> (r: Option<
        Contact,
    >)
        ensures
            r is Some <==> ((name matches Some(n) && exists|k: int|
                0 <= k < self.contacts@.len() && (#[trigger] self.contacts@[k]).name@ == n@) || (
            email matches Some(e) && exists|k: int|
                0 <= k < self.contacts@.len() && (#[trigger] self.contacts@[k]).email@ == e@)),
    {
        if let Some(n) = name {
            if let Some(c) = self.find_contact_by_name(n) {
                return Some(c);
            }
        }
        if let Some(e) = email {
            if let Some(c) = self.find_contact_by_email(e) {
                return Some(c);
            }
        }
        None
    }

    /// Adds a contact; fails when the name or the email is already taken.
    pub fn add_contact(&mut self, name: String, phone: String, email: String, address: String) -> (r:
        Result<(), String>)
        ensures
            r is Ok <==> !book_has(old(self).contacts@, name@, email@),
            r is Ok ==> final(self).contacts@.len() == old(self).contacts@.len() + 1,
            r is Err ==> *final(self) == *old(self),
    {
        let by_name = self.find_contact_by_name(&name);
        let by_email = self.find_contact_by_email(&email);
        if by_name.is_some() || by_email.is_some() {
            return Err(String::from_str("Contact already exists"));
        }
        proof {
            if book_has(self.contacts@, name@, email@) {
                let k = choose|k: int|
                    0 <= k < self.contacts@.len() && (self.contacts@[k].name@ == name@
                        || self.contacts@[k].email@ == email@);
            }
        }
        self.contacts.push(Contact { name, phone, email, address });
        Ok(())
    }

    /// Removes the first contact matching by name or email; fails when
    /// none does.
    #[verifier::loop_isolation(false)]
    pub fn remove_contact(&mut self, name_or_email: String) -> (r: Result<(), String>)
        ensures
            r is Ok <==> book_has(old(self).contacts@, name_or_email@, name_or_email@),
            r is Ok ==> final(self).contacts@.len() == old(self).contacts@.len() - 1,
            r is Err ==> *final(self) == *old(self),
    {
        let mut i: usize = 0;
        while i < self.contacts.len()
            invariant
                0 <= i <= self.contacts@.len(),
                self.contacts == old(self).contacts,
                forall|k: int|
                    0 <= k < i ==> (#[trigger] self.contacts@[k]).name@ != name_or_email@
                        && self.contacts@[k].email@ != name_or_email@,
            decreases self.contacts@.len() - i,
        {
            if self.contacts[i].name == name_or_email || self.contacts[i].email == name_or_email {
                proof {
                    assert(old(self).contacts@[i as int].name@ == name_or_email@
                        || old(self).contacts@[i as int].email@ == name_or_email@);
                    assert(book_has(old(self).contacts@, name_or_email@, name_or_email@));
                }
                self.contacts.remove(i);
                return Ok(());
            }
            i = i + 1;
        }
        proof {
            if book_has(old(self).contacts@, name_or_email@, name_or_email@) {
                let k = choose|k: int|
                    0 <= k < old(self).contacts@.len() && ((#[trigger] old(self).contacts@[k]).name@ == name_or_email@ || old(self).contacts@[k].email@
                        == name_or_email@);
                assert(self.contacts@[k].name@ == old(self).contacts@[k].name@);
            }
        }
        Err(String::from_str("No such contact"))
    }

    /// Rewrites the supplied fields of the first contact matching by name
    /// or email; matching nothing is not an error.
    #[verifier::loop_isolation(false)]
    pub fn update_contact(
        &mut self,
        name_or_email: String,
        address: Option<String>,
        email: Option<String>,
        phone: Option<String>,
        name: Option<String>,
    ) -> (r: Result<(), String>)
        ensures
            r is Err <==> name_or_email@.len() == 0,
    {
        if name_or_email.as_str().is_empty() {
            return Err(String::from_str("name or email cannot be empty"));
        }
        let mut i: usize = 0;
        while i < self.contacts.len()
            invariant
                0 <= i <= self.contacts@.len(),
                self.contacts@.len() == old(self).contacts@.len(),
            decreases self.contacts@.len() - i,
        {
            if self.contacts[i].name == name_or_email || self.contacts[i].email == name_or_email {
                let mut c = Contact {
                    name: String::new(),
                    phone: String::new(),
                    email: String::new(),
                    address: String::new(),
                };
                vstd::pervasive::VecAdditionalExecFns::set_and_swap(&mut self.contacts, i, &mut c);
                let _ = update_specific_contact(&mut c, &address, &email, &phone, &name);
                vstd::pervasive::VecAdditionalExecFns::set(&mut self.contacts, i, c);
                return Ok(());
            }
            i = i + 1;
        }
        Ok(())
    }
}

} // verus!
