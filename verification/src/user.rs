//! A validated user record: a non-empty name and a bounded age.

use vstd::prelude::*;
use vstd::string::StringExecFns;

verus! {

/// Why a user could not be built.
#[derive(Clone, Copy, PartialEq, Eq, Structural, Debug)]
pub enum UserError {
    /// The name was empty.
    EmptyName,
    /// The age was zero or above 150.
    AgeOutOfRange,
}

/// A user with a non-empty name and an age between 1 and 150. Both bounds
/// are checked at construction and cannot be broken afterwards.
#[derive(Clone, Debug)]
pub struct User {
    name: String,
    age: u8,
}

impl User {
    /// The characters of the user's name.
    pub closed spec fn name_spec(&self) -> Seq<char> {
        self.name@
    }

    /// The user's age.
    pub closed spec fn age_spec(&self) -> u8 {
        self.age
    }

    /// The record invariant: a non-empty name and an age between 1 and 150.
    pub open spec fn wf(&self) -> bool {
        self.name_spec().len() > 0 && 1 <= self.age_spec() <= 150
    }

    /// Validating factory: accepts exactly a non-empty name together with
    /// an age between 1 and 150. An empty name is reported first, whatever
    /// the age.
    pub fn new(name: &str, age: u8) -> (r: Result<User, UserError>)
        ensures
            name@.len() == 0 ==> (r matches Err(e) && e is EmptyName),
            name@.len() > 0 && !(1 <= age <= 150) ==> (r matches Err(e) && e is AgeOutOfRange),
            name@.len() > 0 && 1 <= age <= 150 ==> (r matches Ok(u) && u.name_spec() == name@
                && u.age_spec() == age && u.wf()),
    {
        if name.is_empty() {
            return Err(UserError::EmptyName);
        }
        if age == 0 || age > 150 {
            return Err(UserError::AgeOutOfRange);
        }
        Ok(User { name: String::from_str(name), age })
    }

    /// The user's name.
    pub fn get_name(&self) -> (r: &str)
        ensures
            r@ == self.name_spec(),
    {
        self.name.as_str()
    }

    /// The user's age.
    pub fn get_age(&self) -> (r: u8)
        ensures
            r == self.age_spec(),
    {
        self.age
    }
}

} // verus!
