//! A record with an owned string.
use vstd::prelude::*;

verus! {

/// A student and its name.
#[derive(Debug)]
pub struct Student {
    pub id: usize,
    pub age: usize,
    pub name: String,
}

/// The student with id 0, age 1 and name "abc".
pub fn new() -> (s: Student)
    ensures
        s.id == 0,
        s.age == 1,
        s.name@ == "abc"@,
{
    let name = "abc".to_string();
    proof {
        broadcast use vstd::string::to_string_from_display_ensures_for_str;
    }
    Student { id: 0, age: 1, name }
}

} // verus!
