//! Accounts and the directory that maps identifiers to them.

use argon2::password_hash::PasswordHash;
use vstd::prelude::*;

use crate::credential::{parse_credential, phc_parses, verify_outcome, verify_password};
use crate::error::DirectoryError;
use crate::text::{
    compare_ids, id_lt, lemma_id_lt_irreflexive, lemma_id_lt_transitive, lemma_views_push, views,
    Order,
};

verus! {

/// One user record. `password` holds an encoded hash, never a plaintext.
#[derive(Clone, Debug)]
pub struct User {
    pub disabled: bool,
    pub displayname: String,
    pub email: String,
    pub password: String,
    pub groups: Vec<String>,
}

/// The mathematical value of a [`User`].
pub struct UserView {
    pub disabled: bool,
    pub displayname: Seq<char>,
    pub email: Seq<char>,
    pub password: Seq<char>,
    pub groups: Seq<Seq<char>>,
}

impl View for User {
    type V = UserView;

    open spec fn view(&self) -> UserView {
        UserView {
            disabled: self.disabled,
            displayname: self.displayname@,
            email: self.email@,
            password: self.password@,
            groups: views(self.groups@),
        }
    }
}

/// The zero-valued account: enabled, every text field empty, no groups.
pub open spec fn empty_user() -> UserView {
    UserView {
        disabled: false,
        displayname: Seq::empty(),
        email: Seq::empty(),
        password: Seq::empty(),
        groups: Seq::empty(),
    }
}

fn copy_strings(v: &Vec<String>) -> (r: Vec<String>)
    ensures
        views(r@) == views(v@),
{
    let mut r: Vec<String> = Vec::new();
    let mut i: usize = 0;
    while i < v.len()
        invariant
            i <= v@.len(),
            views(r@) == views(v@).take(i as int),
        decreases v@.len() - i,
    {
        let ghost prev = r@;
        let w = v[i].clone();
        r.push(w);
        proof {
            lemma_views_push(prev, w);
            assert(views(v@).take(i + 1) =~= views(v@).take(i as int).push(v@[i as int]@));
        }
        i = i + 1;
    }
    proof {
        assert(views(v@).take(i as int) =~= views(v@));
    }
    r
}

impl Default for User {
    fn default() -> (r: User)
        ensures
            r@ == empty_user(),
    {
        let r = User {
            disabled: false,
            displayname: String::new(),
            email: String::new(),
            password: String::new(),
            groups: Vec::new(),
        };
        proof {
            assert(views(r.groups@) =~= Seq::<Seq<char>>::empty());
        }
        r
    }
}

impl User {
    /// A copy of this account with equal fields.
    pub fn duplicate(&self) -> (r: User)
        ensures
            r@ == self@,
    {
        User {
            disabled: self.disabled,
            displayname: self.displayname.clone(),
            email: self.email.clone(),
            password: self.password.clone(),
            groups: copy_strings(&self.groups),
        }
    }

    /// The stored credential, parsed; `MalformedCredential` when it is not an
    /// encoded hash.
    pub fn password_hash(&self) -> (r: Result<PasswordHash<'_>, DirectoryError>)
        ensures
            r is Ok <==> phc_parses(self.password@),
            r matches Err(e) ==> e == DirectoryError::MalformedCredential,
    {
        parse_credential(self.password.as_str())
    }

    /// Checks a plaintext candidate against the stored credential.
    pub fn verify_password(&self, passwd: &str) -> (r: Result<bool, DirectoryError>)
        ensures
            r == verify_outcome(passwd@, self.password@),
    {
        verify_password(passwd, self.password.as_str())
    }
}

/// What reading `id` from the directory yields: its account, or the empty
/// account when it is absent.
pub open spec fn lookup(m: Map<Seq<char>, UserView>, id: Seq<char>) -> UserView {
    if m.contains_key(id) {
        m[id]
    } else {
        empty_user()
    }
}

/// `r` lists exactly the entries of `m`, in strictly ascending identifier
/// order.
pub open spec fn lists_exactly(r: Seq<(String, User)>, m: Map<Seq<char>, UserView>) -> bool {
    &&& sorted_entries(r)
    &&& forall|i: int|
        0 <= i < r.len() ==> m.contains_key(#[trigger] r[i].0@) && m[r[i].0@] == r[i].1@
    &&& forall|k: Seq<char>| m.contains_key(k) ==> has_id(r, k)
}

/// The identifiers of the entries, in order.
pub open spec fn entry_ids(r: Seq<(String, User)>) -> Seq<Seq<char>> {
    r.map_values(|e: (String, User)| e.0@)
}

/// A listing has exactly as many entries as the directory has accounts, and
/// the directory is finite.
pub proof fn lemma_listing_length(r: Seq<(String, User)>, m: Map<Seq<char>, UserView>)
    requires
        lists_exactly(r, m),
    ensures
        m.dom().finite(),
        r.len() == m.len(),
{
    let ids = entry_ids(r);
    assert forall|i: int, j: int| 0 <= i < ids.len() && 0 <= j < ids.len() && i != j implies ids[i]
        != ids[j] by {
        lemma_id_lt_irreflexive(ids[i]);
        if i < j {
            assert(id_lt(r[i].0@, r[j].0@));
        } else {
            assert(id_lt(r[j].0@, r[i].0@));
        }
    }
    assert(ids.no_duplicates());
    ids.unique_seq_to_set();
    vstd::seq_lib::seq_to_set_is_finite(ids);
    assert forall|k: Seq<char>| m.dom().contains(k) <==> ids.to_set().contains(k) by {
        if m.contains_key(k) {
            assert(has_id(r, k));
            let i = id_index(r, k);
            assert(ids[i] == k);
        }
        if ids.to_set().contains(k) {
            let i = choose|i: int| 0 <= i < ids.len() && ids[i] == k;
            assert(r[i].0@ == k);
        }
    }
    assert(m.dom() =~= ids.to_set());
}

/// A listing depends on the directory's contents alone, not on the order in
/// which accounts were inserted: two listings of one directory agree entry by
/// entry.
pub proof fn lemma_listing_unique(
    r1: Seq<(String, User)>,
    r2: Seq<(String, User)>,
    m: Map<Seq<char>, UserView>,
)
    requires
        lists_exactly(r1, m),
        lists_exactly(r2, m),
    ensures
        r1.len() == r2.len(),
        forall|i: int|
            0 <= i < r1.len() ==> (#[trigger] r1[i]).0@ == r2[i].0@ && r1[i].1@ == r2[i].1@,
    decreases r1.len(),
{
    if r1.len() == 0 {
        if r2.len() > 0 {
            assert(m.contains_key(r2[0].0@));
            assert(has_id(r1, r2[0].0@));
        }
    } else if r2.len() == 0 {
        assert(m.contains_key(r1[0].0@));
        assert(has_id(r2, r1[0].0@));
    } else {
        let k1 = r1[0].0@;
        let k2 = r2[0].0@;
        assert(m.contains_key(k1));
        assert(m.contains_key(k2));
        assert(has_id(r2, k1));
        assert(has_id(r1, k2));
        let j = id_index(r2, k1);
        let k = id_index(r1, k2);
        assert(0 <= j < r2.len() && r2[j].0@ == k1);
        assert(0 <= k < r1.len() && r1[k].0@ == k2);
        if k1 != k2 {
            assert(j > 0 && k > 0);
            assert(id_lt(r2[0].0@, r2[j].0@));
            assert(id_lt(r1[0].0@, r1[k].0@));
            lemma_id_lt_transitive(k1, k2, k1);
            lemma_id_lt_irreflexive(k1);
        }
        let t1 = r1.drop_first();
        let t2 = r2.drop_first();
        let m1 = m.remove(k1);
        lemma_drop_first_lists(r1, m);
        lemma_drop_first_lists(r2, m);
        lemma_listing_unique(t1, t2, m1);
        assert forall|i: int| 0 <= i < r1.len() implies (#[trigger] r1[i]).0@ == r2[i].0@
            && r1[i].1@ == r2[i].1@ by {
            if i > 0 {
                assert(r1[i] == t1[i - 1]);
                assert(r2[i] == t2[i - 1]);
            }
        }
    }
}

proof fn lemma_drop_first_lists(r: Seq<(String, User)>, m: Map<Seq<char>, UserView>)
    requires
        lists_exactly(r, m),
        r.len() > 0,
    ensures
        lists_exactly(r.drop_first(), m.remove(r[0].0@)),
{
    let t = r.drop_first();
    let k0 = r[0].0@;
    let m1 = m.remove(k0);
    assert forall|i: int, j: int| 0 <= i < j < t.len() implies id_lt(
        #[trigger] t[i].0@,
        #[trigger] t[j].0@,
    ) by {
        assert(t[i] == r[i + 1]);
        assert(t[j] == r[j + 1]);
        assert(id_lt(r[i + 1].0@, r[j + 1].0@));
    }
    assert forall|i: int| 0 <= i < t.len() implies m1.contains_key(#[trigger] t[i].0@)
        && m1[t[i].0@] == t[i].1@ by {
        assert(t[i] == r[i + 1]);
        assert(id_lt(r[0].0@, r[i + 1].0@));
        lemma_id_lt_irreflexive(k0);
    }
    assert forall|k: Seq<char>| m1.contains_key(k) implies has_id(t, k) by {
        assert(has_id(r, k));
        let i = id_index(r, k);
        assert(i != 0);
        assert(t[i - 1].0@ == k);
    }
}

/// Deleting an identifier that is absent leaves the directory as it was.
pub proof fn lemma_remove_absent(m: Map<Seq<char>, UserView>, id: Seq<char>)
    requires
        !m.contains_key(id),
    ensures
        m.remove(id) == m,
{
    assert(m.remove(id) =~= m);
}

/// An account may be stored: its credential is empty or an encoded hash.
pub open spec fn storable(u: UserView) -> bool {
    u.password.len() == 0 || phc_parses(u.password)
}

/// Every stored credential is empty or an encoded hash.
pub open spec fn credentials_valid(m: Map<Seq<char>, UserView>) -> bool {
    forall|k: Seq<char>| m.contains_key(k) ==> storable(#[trigger] m[k])
}

/// The entries' identifiers are strictly ascending.
pub open spec fn sorted_entries(s: Seq<(String, User)>) -> bool {
    forall|i: int, j: int| 0 <= i < j < s.len() ==> id_lt(#[trigger] s[i].0@, #[trigger] s[j].0@)
}

/// Some entry has identifier `k`.
pub open spec fn has_id(s: Seq<(String, User)>, k: Seq<char>) -> bool {
    exists|i: int| 0 <= i < s.len() && (#[trigger] s[i]).0@ == k
}

/// The position of an entry with identifier `k`, if there is one.
pub open spec fn id_index(s: Seq<(String, User)>, k: Seq<char>) -> int {
    choose|i: int| 0 <= i < s.len() && (#[trigger] s[i]).0@ == k
}

/// The entries read as a map from identifier to account.
pub open spec fn entries_map(s: Seq<(String, User)>) -> Map<Seq<char>, UserView> {
    Map::new(
        |k: Seq<char>| has_id(s, k),
        |k: Seq<char>| s[id_index(s, k)].1@,
    )
}

proof fn lemma_entry_in_map(s: Seq<(String, User)>, n: int)
    requires
        sorted_entries(s),
        0 <= n < s.len(),
    ensures
        entries_map(s).contains_key(s[n].0@),
        entries_map(s)[s[n].0@] == s[n].1@,
{
    let k = s[n].0@;
    assert(has_id(s, k));
    let j = id_index(s, k);
    if j != n {
        lemma_id_lt_irreflexive(k);
        if j < n {
            assert(id_lt(s[j].0@, s[n].0@));
        } else {
            assert(id_lt(s[n].0@, s[j].0@));
        }
    }
    assert(entries_map(s)[k] == s[j].1@);
}

proof fn lemma_replace_entry(s: Seq<(String, User)>, p: int, e: (String, User))
    requires
        sorted_entries(s),
        0 <= p < s.len(),
        s[p].0@ == e.0@,
    ensures
        sorted_entries(s.update(p, e)),
        entries_map(s.update(p, e)) == entries_map(s).insert(e.0@, e.1@),
{
    let t = s.update(p, e);
    assert forall|i: int, j: int| 0 <= i < j < t.len() implies id_lt(
        #[trigger] t[i].0@,
        #[trigger] t[j].0@,
    ) by {
        assert(t[i].0@ == s[i].0@);
        assert(t[j].0@ == s[j].0@);
        assert(id_lt(s[i].0@, s[j].0@));
    }
    let m = entries_map(t);
    let m2 = entries_map(s).insert(e.0@, e.1@);
    assert forall|k: Seq<char>| m.contains_key(k) <==> m2.contains_key(k) by {
        if m.contains_key(k) {
            let i = id_index(t, k);
            if i != p {
                assert(s[i].0@ == k);
            }
        }
        if m2.contains_key(k) {
            if k == e.0@ {
                assert(t[p].0@ == k);
            } else {
                let i = id_index(s, k);
                assert(t[i].0@ == k);
            }
        }
    }
    assert forall|k: Seq<char>| m.contains_key(k) implies m[k] == m2[k] by {
        let i = id_index(t, k);
        lemma_entry_in_map(t, i);
        if i != p {
            assert(t[i] == s[i]);
            lemma_entry_in_map(s, i);
            lemma_id_lt_irreflexive(k);
            if i < p {
                assert(id_lt(t[i].0@, t[p].0@));
            } else {
                assert(id_lt(t[p].0@, t[i].0@));
            }
        }
    }
    assert(m =~= m2);
}

proof fn lemma_insert_entry(s: Seq<(String, User)>, p: int, e: (String, User))
    requires
        sorted_entries(s),
        0 <= p <= s.len(),
        forall|i: int| 0 <= i < p ==> id_lt(#[trigger] s[i].0@, e.0@),
        p < s.len() ==> id_lt(e.0@, s[p].0@),
    ensures
        sorted_entries(s.insert(p, e)),
        entries_map(s.insert(p, e)) == entries_map(s).insert(e.0@, e.1@),
{
    let t = s.insert(p, e);
    assert forall|i: int, j: int| 0 <= i < j < t.len() implies id_lt(
        #[trigger] t[i].0@,
        #[trigger] t[j].0@,
    ) by {
        if j < p {
            assert(id_lt(s[i].0@, s[j].0@));
        } else if j == p {
            assert(id_lt(s[i].0@, e.0@));
        } else if i < p {
            assert(t[j] == s[j - 1]);
            assert(id_lt(s[i].0@, e.0@));
            if j - 1 > p {
                assert(id_lt(s[p].0@, s[j - 1].0@));
                lemma_id_lt_transitive(e.0@, s[p].0@, s[j - 1].0@);
            }
            lemma_id_lt_transitive(s[i].0@, e.0@, s[j - 1].0@);
        } else if i == p {
            if j - 1 > p {
                assert(id_lt(s[p].0@, s[j - 1].0@));
                lemma_id_lt_transitive(e.0@, s[p].0@, s[j - 1].0@);
            }
        } else {
            assert(id_lt(s[i - 1].0@, s[j - 1].0@));
        }
    }
    let m = entries_map(t);
    let m2 = entries_map(s).insert(e.0@, e.1@);
    assert forall|k: Seq<char>| m.contains_key(k) <==> m2.contains_key(k) by {
        if m.contains_key(k) {
            let i = id_index(t, k);
            if i < p {
                assert(s[i].0@ == k);
            } else if i > p {
                assert(s[i - 1].0@ == k);
            }
        }
        if m2.contains_key(k) {
            if k == e.0@ {
                assert(t[p].0@ == k);
            } else {
                let i = id_index(s, k);
                if i < p {
                    assert(t[i].0@ == k);
                } else {
                    assert(t[i + 1].0@ == k);
                }
            }
        }
    }
    assert forall|k: Seq<char>| m.contains_key(k) implies m[k] == m2[k] by {
        let i = id_index(t, k);
        lemma_entry_in_map(t, i);
        if i < p {
            lemma_entry_in_map(s, i);
        } else if i > p {
            lemma_entry_in_map(s, i - 1);
        }
        if i != p {
            lemma_id_lt_irreflexive(k);
            if i < p {
                assert(id_lt(t[i].0@, t[p].0@));
            } else {
                assert(id_lt(t[p].0@, t[i].0@));
            }
        }
    }
    assert(m =~= m2);
}

proof fn lemma_remove_entry(s: Seq<(String, User)>, p: int)
    requires
        sorted_entries(s),
        0 <= p < s.len(),
    ensures
        sorted_entries(s.remove(p)),
        entries_map(s.remove(p)) == entries_map(s).remove(s[p].0@),
{
    let t = s.remove(p);
    let key = s[p].0@;
    assert forall|i: int, j: int| 0 <= i < j < t.len() implies id_lt(
        #[trigger] t[i].0@,
        #[trigger] t[j].0@,
    ) by {
        let oi = if i < p { i } else { i + 1 };
        let oj = if j < p { j } else { j + 1 };
        assert(t[i] == s[oi]);
        assert(t[j] == s[oj]);
        assert(id_lt(s[oi].0@, s[oj].0@));
    }
    let m = entries_map(t);
    let m2 = entries_map(s).remove(key);
    assert forall|k: Seq<char>| m.contains_key(k) <==> m2.contains_key(k) by {
        if m.contains_key(k) {
            let i = id_index(t, k);
            let oi = if i < p { i } else { i + 1 };
            assert(s[oi].0@ == k);
            lemma_id_lt_irreflexive(k);
            if oi < p {
                assert(id_lt(s[oi].0@, s[p].0@));
            } else {
                assert(id_lt(s[p].0@, s[oi].0@));
            }
        }
        if m2.contains_key(k) {
            let i = id_index(s, k);
            if i < p {
                assert(t[i].0@ == k);
            } else {
                assert(i != p);
                assert(t[i - 1].0@ == k);
            }
        }
    }
    assert forall|k: Seq<char>| m.contains_key(k) implies m[k] == m2[k] by {
        let i = id_index(t, k);
        lemma_entry_in_map(t, i);
        let oi = if i < p { i } else { i + 1 };
        assert(t[i] == s[oi]);
        lemma_entry_in_map(s, oi);
    }
    assert(m =~= m2);
}

proof fn lemma_absent(s: Seq<(String, User)>, k: Seq<char>)
    requires
        forall|i: int| 0 <= i < s.len() ==> (#[trigger] s[i]).0@ != k,
    ensures
        !entries_map(s).contains_key(k),
{
}

/// The full account collection, keyed by identifier. Entries are kept in
/// ascending identifier order.
pub struct UserDatabase {
    users: Vec<(String, User)>,
}

impl View for UserDatabase {
    type V = Map<Seq<char>, UserView>;

    closed spec fn view(&self) -> Map<Seq<char>, UserView> {
        entries_map(self.users@)
    }
}

impl UserDatabase {
    /// Identifiers are unique and ascending.
    pub closed spec fn wf(&self) -> bool {
        sorted_entries(self.users@)
    }

    /// An empty directory.
    pub fn new() -> (r: UserDatabase)
        ensures
            r.wf(),
            r@ == Map::<Seq<char>, UserView>::empty(),
    {
        let r = UserDatabase { users: Vec::new() };
        proof {
            assert(r@ =~= Map::<Seq<char>, UserView>::empty());
        }
        r
    }

    /// The account at `id`, or the empty account when there is none: a
    /// missing identifier reads as a blank template, not as a failure.
    pub fn get(&self, id: &str) -> (r: User)
        requires
            self.wf(),
        ensures
            r@ == lookup(self@, id@),
    {
        let (p, found) = self.find_slot(id);
        if found {
            proof {
                lemma_entry_in_map(self.users@, p as int);
            }
            self.users[p].1.duplicate()
        } else {
            proof {
                let s = self.users@;
                assert forall|i: int| 0 <= i < s.len() implies (#[trigger] s[i]).0@ != id@ by {
                    lemma_id_lt_irreflexive(id@);
                    if i > p {
                        assert(id_lt(s[p as int].0@, s[i].0@));
                        lemma_id_lt_transitive(id@, s[p as int].0@, s[i].0@);
                    }
                }
                lemma_absent(s, id@);
            }
            User::default()
        }
    }

    /// Every account with its identifier, in ascending identifier order.
    pub fn sorted_users(&self) -> (r: Vec<(String, User)>)
        requires
            self.wf(),
        ensures
            lists_exactly(r@, self@),
            self@.dom().finite(),
            r@.len() == self@.len(),
    {
        let mut r: Vec<(String, User)> = Vec::new();
        let mut i: usize = 0;
        while i < self.users.len()
            invariant
                i <= self.users@.len(),
                r@.len() == i,
                forall|j: int|
                    0 <= j < i ==> (#[trigger] r@[j]).0@ == self.users@[j].0@ && r@[j].1@
                        == self.users@[j].1@,
            decreases self.users@.len() - i,
        {
            let id = self.users[i].0.clone();
            let user = self.users[i].1.duplicate();
            r.push((id, user));
            i = i + 1;
        }
        proof {
            let s = self.users@;
            assert forall|a: int, b: int| 0 <= a < b < r@.len() implies id_lt(
                #[trigger] r@[a].0@,
                #[trigger] r@[b].0@,
            ) by {
                assert(id_lt(s[a].0@, s[b].0@));
            }
            assert forall|a: int| 0 <= a < r@.len() implies self@.contains_key(
                #[trigger] r@[a].0@,
            ) && self@[r@[a].0@] == r@[a].1@ by {
                lemma_entry_in_map(s, a);
            }
            assert forall|k: Seq<char>| self@.contains_key(k) implies exists|a: int|
                0 <= a < r@.len() && (#[trigger] r@[a]).0@ == k by {
                let a = id_index(s, k);
                assert(r@[a].0@ == k);
            }
            lemma_listing_length(r@, self@);
        }
        r
    }

    /// Where `id` stands or would stand: every entry before the slot is
    /// smaller, and the flag tells whether the entry at the slot is `id`.
    fn find_slot(&self, id: &str) -> (r: (usize, bool))
        requires
            self.wf(),
        ensures
            r.0 <= self.users@.len(),
            forall|i: int| 0 <= i < r.0 ==> id_lt(#[trigger] self.users@[i].0@, id@),
            r.1 ==> r.0 < self.users@.len() && self.users@[r.0 as int].0@ == id@,
            !r.1 ==> r.0 < self.users@.len() ==> id_lt(id@, self.users@[r.0 as int].0@),
    {
        let mut i: usize = 0;
        while i < self.users.len()
            invariant
                i <= self.users@.len(),
                forall|j: int| 0 <= j < i ==> id_lt(#[trigger] self.users@[j].0@, id@),
            decreases self.users@.len() - i,
        {
            match compare_ids(self.users[i].0.as_str(), id) {
                Order::Less => {},
                Order::Equal => {
                    return (i, true);
                },
                Order::Greater => {
                    return (i, false);
                },
            }
            i = i + 1;
        }
        (i, false)
    }

    /// Inserts or overwrites the account at `id` (a full replace).
    pub fn insert(&mut self, id: String, user: User)
        requires
            old(self).wf(),
        ensures
            final(self).wf(),
            final(self)@ == old(self)@.insert(id@, user@),
            credentials_valid(old(self)@) && storable(user@) ==> credentials_valid(final(self)@),
    {
        let (p, found) = self.find_slot(id.as_str());
        let ghost s = self.users@;
        let ghost e = (id, user);
        if found {
            self.users.set(p, (id, user));
            proof {
                lemma_replace_entry(s, p as int, e);
                assert(self.users@ == s.update(p as int, e));
            }
        } else {
            self.users.insert(p, (id, user));
            proof {
                lemma_insert_entry(s, p as int, e);
            }
        }
    }

    /// Removes the account at `id` if there is one; absence is no error.
    pub fn remove(&mut self, id: &str)
        requires
            old(self).wf(),
        ensures
            final(self).wf(),
            final(self)@ == old(self)@.remove(id@),
            credentials_valid(old(self)@) ==> credentials_valid(final(self)@),
    {
        let (p, found) = self.find_slot(id);
        let ghost s = self.users@;
        if found {
            self.users.remove(p);
            proof {
                lemma_remove_entry(s, p as int);
            }
        } else {
            proof {
                assert forall|i: int| 0 <= i < s.len() implies (#[trigger] s[i]).0@ != id@ by {
                    lemma_id_lt_irreflexive(id@);
                    if i < p {
                    } else {
                        if i > p {
                            assert(id_lt(s[p as int].0@, s[i].0@));
                            lemma_id_lt_transitive(id@, s[p as int].0@, s[i].0@);
                        }
                    }
                }
                lemma_absent(s, id@);
                assert(entries_map(s) =~= entries_map(s).remove(id@));
            }
        }
    }
}

} // verus!
