use vstd::prelude::*;
use vstd::string::*;

verus! {

/// One account of a user lookup.
pub struct Data {
    pub id: String,
    pub name: String,
    pub username: String,
}

/// The answer of a user lookup.
pub struct User {
    pub data: Vec<Data>,
}

/// Position of the last account named `username`, or -1.
pub open spec fn last_account(data: Seq<Data>, username: Seq<char>) -> int
    decreases data.len(),
{
    if data.len() == 0 {
        -1
    } else if data.last().username@ == username {
        data.len() - 1
    } else {
        last_account(data.drop_last(), username)
    }
}

impl User {
    /// The ids of the accounts, in the order they were listed.
    pub fn user_ids(&self) -> (r: Vec<String>)
        ensures
            r@.len() == self.data@.len(),
            forall|i: int| 0 <= i < r@.len() ==> r@[i] == #[trigger] self.data@[i].id,
    {
        let mut r: Vec<String> = Vec::new();
        let mut i: usize = 0;
        while i < self.data.len()
            invariant
                i <= self.data@.len(),
                r@.len() == i,
                forall|j: int| 0 <= j < i ==> r@[j] == #[trigger] self.data@[j].id,
            decreases self.data@.len() - i,
        {
            r.push(self.data[i].id.clone());
            i = i + 1;
        }
        r
    }

    /// The id of the account named `username`; where it is listed more than
    /// once, the last listing wins.
    pub fn id_of(&self, username: &str) -> (r: Option<String>)
        ensures
            last_account(self.data@, username@) < 0 ==> r is None,
            last_account(self.data@, username@) >= 0 ==> r == Some(
                self.data@[last_account(self.data@, username@)].id,
            ),
    {
        let wanted = String::from_str(username);
        let mut found: Option<String> = None;
        let mut i: usize = 0;
        while i < self.data.len()
            invariant
                wanted@ == username@,
                i <= self.data@.len(),
                last_account(self.data@.take(i as int), username@) < 0 ==> found is None,
                last_account(self.data@.take(i as int), username@) >= 0 ==> found == Some(
                    self.data@[last_account(self.data@.take(i as int), username@)].id,
                ),
                -1 <= last_account(self.data@.take(i as int), username@) < i,
            decreases self.data@.len() - i,
        {
            proof {
                let t = self.data@.take(i + 1);
                assert(t.drop_last() =~= self.data@.take(i as int));
                assert(t.last() == self.data@[i as int]);
            }
            if self.data[i].username == wanted {
                found = Some(self.data[i].id.clone());
            }
            i = i + 1;
        }
        proof {
            assert(self.data@.take(self.data@.len() as int) =~= self.data@);
        }
        found
    }
}

/// The names joined by commas.
pub open spec fn comma_joined(names: Seq<String>) -> Seq<char>
    decreases names.len(),
{
    if names.len() == 0 {
        Seq::empty()
    } else if names.len() == 1 {
        names[0]@
    } else {
        comma_joined(names.drop_last()) + seq![','] + names.last()@
    }
}

/// The value of the `usernames` parameter of a user lookup.
pub fn usernames_query(names: &Vec<String>) -> (r: String)
    ensures
        r@ == comma_joined(names@),
{
    proof {
        reveal_strlit(",");
    }
    let mut r = String::new();
    let mut i: usize = 0;
    while i < names.len()
        invariant
            i <= names@.len(),
            r@ == comma_joined(names@.take(i as int)),
        decreases names@.len() - i,
    {
        proof {
            reveal_strlit(",");
            let t = names@.take(i + 1);
            assert(t.drop_last() =~= names@.take(i as int));
            if i == 0 {
                assert(names@.take(0) =~= Seq::<String>::empty());
            }
        }
        if i > 0 {
            r.append(",");
        }
        r.append(names[i].as_str());
        proof {
            if i == 0 {
                assert(r@ =~= names@[0]@);
            }
        }
        i = i + 1;
    }
    proof {
        assert(names@.take(names@.len() as int) =~= names@);
    }
    r
}

} // verus!
