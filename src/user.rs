use vstd::prelude::*;

verus! {

/// A chat participant as the rest of the application knows it.
pub struct User {
    pub name: Option<String>,
    pub age: Option<u32>,
    pub id_num: String,
}

impl User {
    pub fn new(name: Option<String>, age: Option<u32>, id_num: String) -> (r: User)
        ensures
            r.name == name,
            r.age == age,
            r.id_num == id_num,
    {
        User { name, age, id_num }
    }

    pub fn get_name(&self) -> (r: Option<&str>)
        ensures
            r is Some <==> self.name is Some,
            r is Some ==> r->Some_0@ == self.name->Some_0@,
    {
        match &self.name {
            Some(n) => Some(n.as_str()),
            None => None,
        }
    }

    pub fn get_age(&self) -> (r: Option<u32>)
        ensures
            r == self.age,
    {
        self.age
    }

    pub fn get_id_num(&self) -> (r: &str)
        ensures
            r@ == self.id_num@,
    {
        self.id_num.as_str()
    }
}

} // verus!
