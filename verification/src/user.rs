//! User identities, profiles, and a map keyed by user.

use vstd::prelude::*;
use vstd::std_specs::cmp::PartialEqSpecImpl;

verus! {

/// The stable identity of a user: the username.
#[derive(Debug, Eq, Hash)]
pub struct UserIdentifier {
    pub username: String,
}

impl View for UserIdentifier {
    type V = Seq<char>;

    open spec fn view(&self) -> Seq<char> {
        self.username@
    }
}

impl PartialEq for UserIdentifier {
    fn eq(&self, other: &Self) -> (same: bool) {
        self.username == other.username
    }
}

impl PartialEqSpecImpl for UserIdentifier {
    open spec fn obeys_eq_spec() -> bool {
        true
    }

    open spec fn eq_spec(&self, other: &Self) -> bool {
        self.username@ == other.username@
    }
}

impl Clone for UserIdentifier {
    fn clone(&self) -> (copy: Self)
        ensures
            copy == *self,
    {
        UserIdentifier { username: self.username.clone() }
    }
}

/// What a user shows of themselves.
#[derive(Debug)]
pub struct UserProfile {
    pub username: String,
    pub name: String,
    pub color: String,
    pub pfp: String,
    pub public_key: String,
}

impl Clone for UserProfile {
    fn clone(&self) -> (copy: Self)
        ensures
            copy == *self,
    {
        UserProfile {
            username: self.username.clone(),
            name: self.name.clone(),
            color: self.color.clone(),
            pfp: self.pfp.clone(),
            public_key: self.public_key.clone(),
        }
    }
}

impl UserProfile {
    /// A profile that holds the username and nothing else.
    pub fn dummy(username: String) -> (profile: UserProfile)
        ensures
            profile.username == username,
            profile.name@ == Seq::<char>::empty(),
            profile.color@ == Seq::<char>::empty(),
            profile.pfp@ == Seq::<char>::empty(),
            profile.public_key@ == Seq::<char>::empty(),
    {
        UserProfile {
            username,
            name: String::new(),
            color: String::new(),
            pfp: String::new(),
            public_key: String::new(),
        }
    }
}

/// What a new user sends to register.
pub struct CreateUser {
    pub name: String,
    pub color: String,
    pub public_key: String,
}

impl CreateUser {
    pub fn to_user_profile(&self, username: String, pfp: String) -> (profile: UserProfile)
        ensures
            profile == (UserProfile {
                username,
                name: self.name,
                color: self.color,
                pfp,
                public_key: self.public_key,
            }),
    {
        UserProfile {
            username,
            name: self.name.clone(),
            color: self.color.clone(),
            pfp: pfp,
            public_key: self.public_key.clone(),
        }
    }
}

/// A map from users to values of `V`. Two identifiers with the same username
/// are the same key.
pub struct UserMap<V> {
    keys: Vec<UserIdentifier>,
    values: Vec<V>,
}

impl<V> View for UserMap<V> {
    type V = Map<Seq<char>, V>;

    /// The map from usernames to the values held for them.
    closed spec fn view(&self) -> Map<Seq<char>, V> {
        Map::new(
            |name: Seq<char>| self.holds(name),
            |name: Seq<char>| self.values@[self.slot(name)],
        )
    }
}

impl<V> UserMap<V> {
    spec fn holds(&self, name: Seq<char>) -> bool {
        exists|i: int| 0 <= i < self.keys@.len() && #[trigger] self.keys@[i]@ == name
    }

    spec fn slot(&self, name: Seq<char>) -> int {
        choose|i: int| 0 <= i < self.keys@.len() && #[trigger] self.keys@[i]@ == name
    }

    /// Every key has its value, and no username is held twice.
    pub closed spec fn wf(&self) -> bool {
        &&& self.keys@.len() == self.values@.len()
        &&& forall|i: int, j: int|
            0 <= i < j < self.keys@.len() ==> #[trigger] self.keys@[i]@ != #[trigger] self.keys@[j]@
    }

    proof fn lemma_slot(&self, i: int)
        requires
            self.wf(),
            0 <= i < self.keys@.len(),
        ensures
            self.holds(self.keys@[i]@),
            self.slot(self.keys@[i]@) == i,
            self@.contains_key(self.keys@[i]@),
            self@[self.keys@[i]@] == self.values@[i],
    {
        let name = self.keys@[i]@;
        assert(self.keys@[i]@ == name);
        let j = self.slot(name);
        assert(0 <= j < self.keys@.len() && self.keys@[j]@ == name);
        if j < i {
            assert(self.keys@[j]@ != self.keys@[i]@);
        } else if i < j {
            assert(self.keys@[i]@ != self.keys@[j]@);
        }
    }

    pub fn new() -> (map: Self)
        ensures
            map.wf(),
            map@ == Map::<Seq<char>, V>::empty(),
    {
        let map = UserMap { keys: Vec::new(), values: Vec::new() };
        assert(map@ =~= Map::<Seq<char>, V>::empty());
        map
    }

    /// The number of users held.
    pub fn len(&self) -> (n: usize)
        requires
            self.wf(),
        ensures
            self@.dom().finite(),
            n == self@.dom().len(),
    {
        proof {
            let names = self.keys@.map_values(|k: UserIdentifier| k@);
            assert forall|i: int, j: int| 0 <= i < names.len() && 0 <= j < names.len() && i
                != j implies names[i] != names[j] by {
                if i < j {
                    assert(self.keys@[i]@ != self.keys@[j]@);
                } else {
                    assert(self.keys@[j]@ != self.keys@[i]@);
                }
            }
            assert forall|name: Seq<char>| names.to_set().contains(name) <==> self@.dom().contains(
                name,
            ) by {
                if names.to_set().contains(name) {
                    let i = choose|i: int| 0 <= i < names.len() && names[i] == name;
                    self.lemma_slot(i);
                }
                if self@.dom().contains(name) {
                    let i = self.slot(name);
                    assert(names[i] == name);
                }
            }
            assert(names.to_set() =~= self@.dom());
            names.unique_seq_to_set();
            vstd::seq_lib::seq_to_set_is_finite(names);
        }
        self.keys.len()
    }

    fn find(&self, user: &UserIdentifier) -> (found: Option<usize>)
        requires
            self.wf(),
        ensures
            match found {
                Some(i) => i < self.keys@.len() && self.keys@[i as int]@ == user@,
                None => !self.holds(user@),
            },
    {
        let mut i: usize = 0;
        while i < self.keys.len()
            invariant
                i <= self.keys@.len(),
                forall|j: int| 0 <= j < i ==> self.keys@[j]@ != user@,
            decreases self.keys@.len() - i,
        {
            if self.keys[i].username == user.username {
                return Some(i);
            }
            i = i + 1;
        }
        None
    }

    pub fn contains_key(&self, user: &UserIdentifier) -> (held: bool)
        requires
            self.wf(),
        ensures
            held == self@.contains_key(user@),
    {
        self.find(user).is_some()
    }

    pub fn get(&self, user: &UserIdentifier) -> (value: Option<&V>)
        requires
            self.wf(),
        ensures
            value == (if self@.contains_key(user@) {
                Some(&self@[user@])
            } else {
                None
            }),
    {
        match self.find(user) {
            Some(i) => {
                proof {
                    self.lemma_slot(i as int);
                }
                Some(&self.values[i])
            },
            None => None,
        }
    }

    /// The users held and the value of each, position by position: every
    /// user once, in no particular order.
    pub fn entries(&self) -> (held: (&Vec<UserIdentifier>, &Vec<V>))
        requires
            self.wf(),
        ensures
            held.0@.len() == held.1@.len(),
            forall|i: int, j: int|
                0 <= i < j < held.0@.len() ==> (#[trigger] held.0@[i])@ != (#[trigger] held.0@[j])@,
            forall|i: int|
                0 <= i < held.0@.len() ==> self@.contains_key((#[trigger] held.0@[i])@)
                    && self@[held.0@[i]@] == held.1@[i],
            forall|name: Seq<char>|
                self@.contains_key(name) ==> exists|i: int|
                    0 <= i < held.0@.len() && (#[trigger] held.0@[i])@ == name,
    {
        proof {
            assert forall|i: int| 0 <= i < self.keys@.len() implies self@.contains_key(
                (#[trigger] self.keys@[i])@,
            ) && self@[self.keys@[i]@] == self.values@[i] by {
                self.lemma_slot(i);
            }
            assert forall|name: Seq<char>| self@.contains_key(name) implies exists|i: int|
                0 <= i < self.keys@.len() && (#[trigger] self.keys@[i])@ == name by {
                let i = self.slot(name);
                assert(self.keys@[i]@ == name);
            }
        }
        (&self.keys, &self.values)
    }

    /// Takes the value held for `user` out of the map.
    pub fn remove(&mut self, user: &UserIdentifier) -> (value: Option<V>)
        requires
            old(self).wf(),
        ensures
            final(self).wf(),
            final(self)@ == old(self)@.remove(user@),
            value == (if old(self)@.contains_key(user@) {
                Some(old(self)@[user@])
            } else {
                None
            }),
    {
        match self.find(user) {
            Some(i) => {
                proof {
                    self.lemma_slot(i as int);
                }
                let ghost before = *self;
                self.keys.swap_remove(i);
                let value = self.values.swap_remove(i);
                proof {
                    let after = *self;
                    let last = before.keys@.len() - 1;
                    assert(after.wf()) by {
                        assert forall|a: int, b: int| 0 <= a < b < after.keys@.len() implies
                            #[trigger] after.keys@[a]@ != #[trigger] after.keys@[b]@ by {
                            let a0 = if a == i { last } else { a };
                            let b0 = if b == i { last } else { b };
                            assert(after.keys@[a] == before.keys@[a0]);
                            assert(after.keys@[b] == before.keys@[b0]);
                            if a0 < b0 {
                                assert(before.keys@[a0]@ != before.keys@[b0]@);
                            } else {
                                assert(before.keys@[b0]@ != before.keys@[a0]@);
                            }
                        }
                    }
                    assert forall|name: Seq<char>| after@.contains_key(name) <==> before@.remove(
                        user@,
                    ).contains_key(name) by {
                        if after.holds(name) {
                            let a = after.slot(name);
                            let a0 = if a == i { last } else { a };
                            assert(after.keys@[a] == before.keys@[a0]);
                            assert(before.keys@[a0]@ == name);
                            if a0 < i {
                                assert(before.keys@[a0]@ != before.keys@[i as int]@);
                            } else {
                                assert(before.keys@[i as int]@ != before.keys@[a0]@);
                            }
                        }
                        if before.holds(name) && name != user@ {
                            let b = before.slot(name);
                            let b1 = if b == last { i as int } else { b };
                            assert(after.keys@[b1] == before.keys@[b]);
                            assert(after.keys@[b1]@ == name);
                        }
                    }
                    assert forall|name: Seq<char>| after@.contains_key(name) implies after@[name]
                        == before@.remove(user@)[name] by {
                        let a = after.slot(name);
                        let a0 = if a == i { last } else { a };
                        assert(after.keys@[a] == before.keys@[a0]);
                        before.lemma_slot(a0);
                        after.lemma_slot(a);
                    }
                    assert(after@ =~= before@.remove(user@));
                }
                Some(value)
            },
            None => {
                assert(self@ =~= old(self)@.remove(user@));
                None
            },
        }
    }

    /// Holds `value` for `user`, in place of what was held for them before.
    pub fn insert(&mut self, user: UserIdentifier, value: V)
        requires
            old(self).wf(),
        ensures
            final(self).wf(),
            final(self)@ == old(self)@.insert(user@, value),
    {
        let _ = self.remove(&user);
        let ghost before = *self;
        assert(!before@.contains_key(user@));
        assert(!before.holds(user@));
        self.keys.push(user);
        self.values.push(value);
        proof {
            let after = *self;
            let last = before.keys@.len() as int;
            assert(after.keys@[last]@ == user@);
            assert(after.wf()) by {
                assert forall|a: int, b: int| 0 <= a < b < after.keys@.len() implies
                    #[trigger] after.keys@[a]@ != #[trigger] after.keys@[b]@ by {
                    if b == last {
                        assert(before.keys@[a]@ != user@);
                    } else {
                        assert(before.keys@[a]@ != before.keys@[b]@);
                    }
                }
            }
            assert forall|name: Seq<char>| after@.contains_key(name) <==> before@.insert(
                user@,
                value,
            ).contains_key(name) by {
                if after.holds(name) {
                    let a = after.slot(name);
                    if a < last {
                        assert(before.keys@[a]@ == name);
                    }
                }
                if before.holds(name) {
                    let b = before.slot(name);
                    assert(after.keys@[b]@ == name);
                }
            }
            assert forall|name: Seq<char>| after@.contains_key(name) implies after@[name]
                == before@.insert(user@, value)[name] by {
                let a = after.slot(name);
                after.lemma_slot(a);
                if a < last {
                    assert(before.keys@[a] == after.keys@[a]);
                    before.lemma_slot(a);
                }
            }
            assert(after@ =~= before@.insert(user@, value));
            assert(before@.insert(user@, value) =~= old(self)@.insert(user@, value));
        }
    }
}

impl<T> UserMap<Vec<T>> {
    /// The list held for each user, and the empty list for a user that the
    /// map does not hold.
    pub open spec fn lists(&self) -> Map<Seq<char>, Seq<T>> {
        Map::total(
            |name: Seq<char>|
                if self@.contains_key(name) {
                    self@[name]@
                } else {
                    Seq::empty()
                },
        )
    }
}

/// The username of the pair at position `i`.
pub open spec fn name_at<T>(pairs: Seq<(String, T)>, i: int) -> Seq<char> {
    pairs[i].0@
}

/// No username stands in two of the pairs.
pub open spec fn names_distinct<T>(pairs: Seq<(String, T)>) -> bool {
    forall|i: int, j: int|
        0 <= i < j < pairs.len() ==> #[trigger] name_at(pairs, i) != #[trigger] name_at(pairs, j)
}

/// The pairs read as a map from username to value; where a username stands
/// in several pairs, the last of them counts.
pub open spec fn pairs_map<T>(pairs: Seq<(String, T)>) -> Map<Seq<char>, T>
    decreases pairs.len(),
{
    if pairs.len() == 0 {
        Map::empty()
    } else {
        pairs_map(pairs.drop_last()).insert(pairs.last().0@, pairs.last().1)
    }
}

/// What `pairs_map` holds when no username stands in two pairs: each pair's
/// value under its username, and nothing else.
pub proof fn lemma_pairs_map<T>(pairs: Seq<(String, T)>)
    requires
        names_distinct(pairs),
    ensures
        forall|name: Seq<char>|
            pairs_map(pairs).contains_key(name) <==> exists|i: int|
                0 <= i < pairs.len() && #[trigger] name_at(pairs, i) == name,
        forall|i: int|
            0 <= i < pairs.len() ==> pairs_map(pairs)[#[trigger] name_at(pairs, i)] == pairs[i].1,
    decreases pairs.len(),
{
    if pairs.len() > 0 {
        let front = pairs.drop_last();
        let last = pairs.len() - 1;
        assert forall|i: int, j: int| 0 <= i < j < front.len() implies #[trigger] name_at(front, i)
            != #[trigger] name_at(front, j) by {
            assert(name_at(pairs, i) != name_at(pairs, j));
        }
        lemma_pairs_map(front);
        assert forall|name: Seq<char>|
            pairs_map(pairs).contains_key(name) <==> exists|i: int|
                0 <= i < pairs.len() && #[trigger] name_at(pairs, i) == name by {
            if pairs_map(pairs).contains_key(name) {
                if name == pairs[last].0@ {
                    assert(name_at(pairs, last) == name);
                } else {
                    assert(pairs_map(front).contains_key(name));
                    let i = choose|i: int|
                        0 <= i < front.len() && #[trigger] name_at(front, i) == name;
                    assert(name_at(pairs, i) == name);
                }
            }
            if exists|i: int| 0 <= i < pairs.len() && #[trigger] name_at(pairs, i) == name {
                let i = choose|i: int| 0 <= i < pairs.len() && #[trigger] name_at(pairs, i) == name;
                if i < last {
                    assert(name_at(front, i) == name);
                }
            }
        }
        assert forall|i: int| 0 <= i < pairs.len() implies pairs_map(pairs)[#[trigger] name_at(
            pairs,
            i,
        )] == pairs[i].1 by {
            if i < last {
                assert(name_at(pairs, i) != name_at(pairs, last));
                assert(name_at(front, i) == name_at(pairs, i));
            }
        }
    }
}

/// The map with plain usernames as keys: one pair for each user held, in no
/// particular order.
pub fn uid_map_into<T>(input_map: UserMap<T>) -> (output_map: Vec<(String, T)>)
    requires
        input_map.wf(),
    ensures
        names_distinct(output_map@),
        pairs_map(output_map@) == input_map@,
{
    let UserMap { mut keys, mut values } = input_map;
    let mut output_map: Vec<(String, T)> = Vec::new();
    let n = keys.len();
    while keys.len() > 0
        invariant
            input_map.wf(),
            n == input_map.keys@.len(),
            keys@.len() == values@.len(),
            keys@.len() + output_map@.len() == n,
            keys@ == input_map.keys@.take(keys@.len() as int),
            values@ == input_map.values@.take(values@.len() as int),
            forall|j: int|
                0 <= j < output_map@.len() ==> (#[trigger] output_map@[j]).0@
                    == input_map.keys@[n - 1 - j]@ && output_map@[j].1 == input_map.values@[n - 1
                    - j],
        decreases keys@.len(),
    {
        let ghost k = keys@.len() - 1;
        let uid = keys.pop().unwrap();
        let value = values.pop().unwrap();
        assert(uid == input_map.keys@[k]);
        assert(value == input_map.values@[k]);
        output_map.push((uid.username, value));
        assert(keys@ =~= input_map.keys@.take(keys@.len() as int));
        assert(values@ =~= input_map.values@.take(values@.len() as int));
    }
    proof {
        let out = output_map@;
        assert forall|i: int, j: int| 0 <= i < j < out.len() implies #[trigger] name_at(out, i)
            != #[trigger] name_at(out, j) by {
            assert(input_map.keys@[n - 1 - j]@ != input_map.keys@[n - 1 - i]@);
        }
        lemma_pairs_map(out);
        assert forall|name: Seq<char>| pairs_map(out).contains_key(name)
            <==> input_map@.contains_key(name) by {
            if pairs_map(out).contains_key(name) {
                let i = choose|i: int| 0 <= i < out.len() && #[trigger] name_at(out, i) == name;
                input_map.lemma_slot(n - 1 - i);
            }
            if input_map.holds(name) {
                let i = input_map.slot(name);
                assert(name_at(out, n - 1 - i) == name);
            }
        }
        assert forall|name: Seq<char>| pairs_map(out).contains_key(name) implies pairs_map(
            out,
        )[name] == input_map@[name] by {
            let i = choose|i: int| 0 <= i < out.len() && #[trigger] name_at(out, i) == name;
            input_map.lemma_slot(n - 1 - i);
        }
        assert(pairs_map(out) =~= input_map@);
    }
    output_map
}

/// The map with user identifiers as keys. Where a username stands in several
/// pairs, the last of them counts.
pub fn username_map_into<T>(input_map: Vec<(String, T)>) -> (output_map: UserMap<T>)
    ensures
        output_map.wf(),
        output_map@ == pairs_map(input_map@),
{
    let ghost pairs = input_map@;
    let mut rest = input_map;
    let mut stack: Vec<(String, T)> = Vec::new();
    while rest.len() > 0
        invariant
            rest@.len() + stack@.len() == pairs.len(),
            rest@ == pairs.take(rest@.len() as int),
            forall|j: int|
                0 <= j < stack@.len() ==> #[trigger] stack@[j] == pairs[pairs.len() - 1 - j],
        decreases rest@.len(),
    {
        let pair = rest.pop().unwrap();
        stack.push(pair);
        assert(rest@ =~= pairs.take(rest@.len() as int));
    }
    let mut output_map: UserMap<T> = UserMap::new();
    assert(pairs.take(0) =~= Seq::<(String, T)>::empty());
    while stack.len() > 0
        invariant
            stack@.len() <= pairs.len(),
            forall|j: int|
                0 <= j < stack@.len() ==> #[trigger] stack@[j] == pairs[pairs.len() - 1 - j],
            output_map.wf(),
            output_map@ == pairs_map(pairs.take(pairs.len() - stack@.len())),
        decreases stack@.len(),
    {
        let ghost done = pairs.len() - stack@.len();
        let (username, value) = stack.pop().unwrap();
        assert((username, value) == pairs[done]);
        assert(pairs.take(done + 1).drop_last() =~= pairs.take(done));
        output_map.insert(UserIdentifier { username }, value);
    }
    assert(pairs.take(pairs.len() as int) =~= pairs);
    output_map
}

} // verus!
