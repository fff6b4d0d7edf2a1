//! An in-memory store of persons and of the users allowed to read or change
//! it, with the requests' query parameters.
use vstd::prelude::*;
use vstd::utf8::encode_utf8;

verus! {

/// A stored person.
#[derive(Clone, Debug)]
pub struct Person {
    pub id: u32,
    pub name: String,
}

/// A person to be stored, before the store gives it an id.
#[derive(Clone, Debug)]
pub struct InsertingPerson {
    pub name: String,
}

/// What a user may do with the store.
#[derive(Clone, Copy, Debug, PartialEq, Eq, Structural)]
pub enum DbPrivilege {
    CanRead,
    CanWrite,
}

/// The spelling under which the browser client's data access names
/// `DbPrivilege`.
pub type DbPriviledge = DbPrivilege;

/// A user of the store.
#[derive(Clone, Debug)]
pub struct User {
    pub username: String,
    pub password: String,
    pub privileges: Vec<DbPrivilege>,
}

/// The store: persons in order of insertion, and the known users.
pub struct DbConnection {
    pub persons: Vec<Person>,
    pub users: Vec<User>,
}

/// The index of the first person of `ps` with id `id`, or `ps.len()` if none.
pub open spec fn person_index(ps: Seq<Person>, id: u32) -> int
    decreases ps.len(),
{
    if ps.len() == 0 {
        0
    } else if ps[0].id == id {
        0
    } else {
        1 + person_index(ps.drop_first(), id)
    }
}

proof fn lemma_person_index(ps: Seq<Person>, id: u32)
    ensures
        0 <= person_index(ps, id) <= ps.len(),
        person_index(ps, id) < ps.len() ==> ps[person_index(ps, id)].id == id,
        forall|j: int| 0 <= j < person_index(ps, id) ==> #[trigger] ps[j].id != id,
    decreases ps.len(),
{
    if ps.len() > 0 && ps[0].id != id {
        lemma_person_index(ps.drop_first(), id);
        assert forall|j: int| 0 <= j < person_index(ps, id) implies #[trigger] ps[j].id != id by {
            if j > 0 {
                assert(ps[j] == ps.drop_first()[j - 1]);
            }
        }
    }
}

/// The index of the first user of `us` named `name`, or `us.len()` if none.
pub open spec fn user_index(us: Seq<User>, name: Seq<char>) -> int
    decreases us.len(),
{
    if us.len() == 0 {
        0
    } else if us[0].username@ == name {
        0
    } else {
        1 + user_index(us.drop_first(), name)
    }
}

proof fn lemma_user_index(us: Seq<User>, name: Seq<char>)
    ensures
        0 <= user_index(us, name) <= us.len(),
        user_index(us, name) < us.len() ==> us[user_index(us, name)].username@ == name,
        forall|j: int| 0 <= j < user_index(us, name) ==> #[trigger] us[j].username@ != name,
    decreases us.len(),
{
    if us.len() > 0 && us[0].username@ != name {
        lemma_user_index(us.drop_first(), name);
        assert forall|j: int| 0 <= j < user_index(us, name) implies #[trigger] us[j].username@ != name by {
            if j > 0 {
                assert(us[j] == us.drop_first()[j - 1]);
            }
        }
    }
}

/// Whether `sub` occurs in `s` as a run of consecutive characters.
pub open spec fn has_substring(s: Seq<char>, sub: Seq<char>) -> bool {
    exists|i: int| 0 <= i <= s.len() - sub.len() && #[trigger] s.subrange(i, i + sub.len()) == sub
}

/// Relies on `str::contains` with a string pattern: whether the pattern
/// occurs in the string.
#[verifier::external_body]
fn contains_str(s: &str, sub: &str) -> (r: bool)
    ensures
        r == has_substring(s@, sub@),
{
    s.contains(sub)
}

/// The persons of `ps`, in order, whose name contains `sub`.
pub open spec fn persons_matching(ps: Seq<Person>, sub: Seq<char>) -> Seq<Person>
    decreases ps.len(),
{
    if ps.len() == 0 {
        Seq::empty()
    } else {
        let rest = persons_matching(ps.drop_last(), sub);
        if has_substring(ps.last().name@, sub) {
            rest.push(ps.last())
        } else {
            rest
        }
    }
}

impl User {
    /// A copy of this user.
    pub fn duplicate(&self) -> (r: User)
        ensures
            r.username@ == self.username@,
            r.password@ == self.password@,
            r.privileges@ == self.privileges@,
    {
        let mut privileges: Vec<DbPrivilege> = Vec::new();
        let mut i: usize = 0;
        while i < self.privileges.len()
            invariant
                i <= self.privileges@.len(),
                privileges@ == self.privileges@.subrange(0, i as int),
            decreases self.privileges@.len() - i,
        {
            privileges.push(self.privileges[i]);
            i = i + 1;
            assert(privileges@ =~= self.privileges@.subrange(0, i as int));
        }
        assert(privileges@ =~= self.privileges@);
        User {
            username: self.username.clone(),
            password: self.password.clone(),
            privileges,
        }
    }
}

impl DbConnection {
    /// A store with no persons and two users: "joe" (password "xjoe"), who
    /// may read, and "susan" (password "xsusan"), who may read and write.
    pub fn new() -> (r: DbConnection)
        ensures
            r.persons@.len() == 0,
            r.users@.len() == 2,
            r.users@[0].username@ == "joe"@,
            r.users@[0].password@ == "xjoe"@,
            r.users@[0].privileges@ == seq![DbPrivilege::CanRead],
            r.users@[1].username@ == "susan"@,
            r.users@[1].password@ == "xsusan"@,
            r.users@[1].privileges@ == seq![DbPrivilege::CanRead, DbPrivilege::CanWrite],
    {
        let joe = User {
            username: "joe".to_owned(),
            password: "xjoe".to_owned(),
            privileges: vec![DbPrivilege::CanRead],
        };
        let susan = User {
            username: "susan".to_owned(),
            password: "xsusan".to_owned(),
            privileges: vec![DbPrivilege::CanRead, DbPrivilege::CanWrite],
        };
        DbConnection { persons: Vec::new(), users: vec![joe, susan] }
    }

    /// The first user named `username`, if any.
    pub fn get_user_by_username(&self, username: &str) -> (r: Option<User>)
        ensures
            ({
                let k = user_index(self.users@, username@);
                if k < self.users@.len() {
                    &&& r is Some
                    &&& r->0.username@ == self.users@[k].username@
                    &&& r->0.password@ == self.users@[k].password@
                    &&& r->0.privileges@ == self.users@[k].privileges@
                } else {
                    r.is_none()
                }
            }),
    {
        proof {
            lemma_user_index(self.users@, username@);
        }
        let name = username.to_owned();
        let mut i: usize = 0;
        while i < self.users.len()
            invariant
                name@ == username@,
                i <= self.users@.len(),
                i <= user_index(self.users@, username@),
                0 <= user_index(self.users@, username@) <= self.users@.len(),
                user_index(self.users@, username@) < self.users@.len() ==> self.users@[user_index(self.users@, username@)].username@ == username@,
                forall|j: int| 0 <= j < user_index(self.users@, username@) ==> #[trigger] self.users@[j].username@ != username@,
            decreases self.users@.len() - i,
        {
            if self.users[i].username == name {
                return Some(self.users[i].duplicate());
            }
            i = i + 1;
        }
        None
    }

    /// The persons whose name contains `subname`, in stored order.
    pub fn get_persons_by_partial_name(&self, subname: &str) -> (r: Vec<Person>)
        ensures
            r@ == persons_matching(self.persons@, subname@),
    {
        let mut r: Vec<Person> = Vec::new();
        let mut i: usize = 0;
        while i < self.persons.len()
            invariant
                i <= self.persons@.len(),
                r@ == persons_matching(self.persons@.subrange(0, i as int), subname@),
            decreases self.persons@.len() - i,
        {
            let p = &self.persons[i];
            let hit = contains_str(p.name.as_str(), subname);
            proof {
                let s = self.persons@.subrange(0, i as int + 1);
                assert(s.drop_last() =~= self.persons@.subrange(0, i as int));
                assert(s.last() == self.persons@[i as int]);
            }
            if hit {
                r.push(Person { id: p.id, name: p.name.clone() });
            }
            i = i + 1;
        }
        assert(self.persons@.subrange(0, self.persons@.len() as int) =~= self.persons@);
        r
    }

    /// Where the first person with `id` stands, by a scan from the front.
    fn find_person(&self, id: u32) -> (r: usize)
        ensures
            r == person_index(self.persons@, id),
    {
        proof {
            lemma_person_index(self.persons@, id);
        }
        let mut i: usize = 0;
        while i < self.persons.len()
            invariant
                i <= self.persons@.len(),
                i <= person_index(self.persons@, id),
                0 <= person_index(self.persons@, id) <= self.persons@.len(),
                person_index(self.persons@, id) < self.persons@.len() ==> self.persons@[person_index(self.persons@, id)].id == id,
                forall|j: int| 0 <= j < person_index(self.persons@, id) ==> #[trigger] self.persons@[j].id != id,
            decreases self.persons@.len() - i,
        {
            if self.persons[i].id == id {
                return i;
            }
            i = i + 1;
        }
        i
    }

    /// The first person with id `id`, if any.
    pub fn get_person_by_id(&self, id: u32) -> (r: Option<Person>)
        ensures
            ({
                let k = person_index(self.persons@, id);
                if k < self.persons@.len() {
                    r == Some(self.persons@[k])
                } else {
                    r.is_none()
                }
            }),
    {
        let k = self.find_person(id);
        if k < self.persons.len() {
            let p = &self.persons[k];
            Some(Person { id: p.id, name: p.name.clone() })
        } else {
            None
        }
    }

    /// Removes the first person with id `id`; says whether there was one.
    pub fn delete_by_id(&mut self, id: u32) -> (r: bool)
        ensures
            ({
                let k = person_index(old(self).persons@, id);
                &&& r == (k < old(self).persons@.len())
                &&& final(self).persons@ == if r {
                    old(self).persons@.remove(k)
                } else {
                    old(self).persons@
                }
                &&& final(self).users@ == old(self).users@
            }),
    {
        let k = self.find_person(id);
        if k < self.persons.len() {
            self.persons.remove(k);
            true
        } else {
            false
        }
    }

    /// Replaces the first person whose id is `person.id`; says whether there
    /// was one.
    pub fn update_person(&mut self, person: Person) -> (r: bool)
        ensures
            ({
                let k = person_index(old(self).persons@, person.id);
                &&& r == (k < old(self).persons@.len())
                &&& final(self).persons@ == if r {
                    old(self).persons@.update(k, person)
                } else {
                    old(self).persons@
                }
                &&& final(self).users@ == old(self).users@
            }),
    {
        let k = self.find_person(person.id);
        if k < self.persons.len() {
            self.persons.set(k, person);
            true
        } else {
            false
        }
    }

    /// The id the next inserted person gets: one more than the last person's,
    /// or 1 for an empty store.
    pub open spec fn next_id(ps: Seq<Person>) -> int {
        if ps.len() == 0 {
            1
        } else {
            ps.last().id + 1
        }
    }

    /// Appends a person under the next id, and returns that id.
    pub fn insert_person(&mut self, person: InsertingPerson) -> (r: u32)
        requires
            DbConnection::next_id(old(self).persons@) <= u32::MAX,
        ensures
            r == DbConnection::next_id(old(self).persons@),
            final(self).persons@ == old(self).persons@.push(Person { id: r, name: person.name }),
            final(self).users@ == old(self).users@,
    {
        let new_id: u32 = if self.persons.len() == 0 {
            1
        } else {
            self.persons[self.persons.len() - 1].id + 1
        };
        self.persons.push(Person { id: new_id, name: person.name });
        new_id
    }
}

/// Why a request's credentials were refused.
#[derive(Clone, Copy, Debug, PartialEq, Eq, Structural)]
pub enum CredentialError {
    /// No user has the given name.
    UserNotFound,
    /// No password was given, or not the user's.
    InvalidPassword,
    /// The user lacks the privilege the request needs.
    InsufficientPrivileges,
}

/// Checks a request's user name and password against the store, and that
/// the user holds `required_privilege`; on success returns the user's
/// privileges.
pub fn check_credentials(
    db: &DbConnection,
    user_id: &str,
    password: Option<&str>,
    required_privilege: DbPrivilege,
) -> (r: Result<Vec<DbPrivilege>, CredentialError>)
    ensures
        ({
            let k = user_index(db.users@, user_id@);
            if k == db.users@.len() {
                r == Err::<Vec<DbPrivilege>, CredentialError>(CredentialError::UserNotFound)
            } else if password.is_none() || password->0@ != db.users@[k].password@ {
                r == Err::<Vec<DbPrivilege>, CredentialError>(CredentialError::InvalidPassword)
            } else if !db.users@[k].privileges@.contains(required_privilege) {
                r == Err::<Vec<DbPrivilege>, CredentialError>(CredentialError::InsufficientPrivileges)
            } else {
                r is Ok && r->Ok_0@ == db.users@[k].privileges@
            }
        }),
{
    proof {
        lemma_user_index(db.users@, user_id@);
    }
    let user = match db.get_user_by_username(user_id) {
        Some(u) => u,
        None => {
            return Err(CredentialError::UserNotFound);
        },
    };
    let given = match password {
        Some(p) => p.to_owned(),
        None => {
            return Err(CredentialError::InvalidPassword);
        },
    };
    if !(user.password == given) {
        return Err(CredentialError::InvalidPassword);
    }
    let mut i: usize = 0;
    while i < user.privileges.len()
        invariant
            i <= user.privileges@.len(),
            forall|j: int| 0 <= j < i ==> user.privileges@[j] != required_privilege,
            password is Some && user.password@ == password->0@,
            ({
                let k = user_index(db.users@, user_id@);
                &&& k < db.users@.len()
                &&& user.password@ == db.users@[k].password@
                &&& user.privileges@ == db.users@[k].privileges@
            }),
        decreases user.privileges@.len() - i,
    {
        if user.privileges[i] == required_privilege {
            assert(user.privileges@[i as int] == required_privilege);
            return Ok(user.privileges);
        }
        i = i + 1;
    }
    Err(CredentialError::InsufficientPrivileges)
}

/// The query of a search: an optional part of a name.
pub struct Filter {
    pub partial_name: Option<String>,
}

impl Filter {
    /// The part of a name to search for; an absent one matches every name.
    pub fn name_part(&self) -> (r: String)
        ensures
            r@ == match self.partial_name {
                Some(n) => n@,
                None => Seq::<char>::empty(),
            },
    {
        match &self.partial_name {
            Some(n) => n.clone(),
            None => String::new(),
        }
    }
}

/// The query of a deletion: an optional comma-separated list of ids.
pub struct ToDelete {
    pub id_list: Option<String>,
}

/// The byte of a comma.
pub const COMMA: u8 = 44;

/// The byte of a plus sign.
pub const PLUS: u8 = 43;

/// The comma-separated pieces of `b`, as `str::split` gives them: one more
/// than there are commas.
pub open spec fn pieces(b: Seq<u8>) -> Seq<Seq<u8>>
    decreases b.len(),
{
    if b.len() == 0 {
        seq![Seq::<u8>::empty()]
    } else {
        let rest = pieces(b.drop_last());
        if b.last() == COMMA {
            rest.push(Seq::<u8>::empty())
        } else {
            rest.update(rest.len() - 1, rest.last().push(b.last()))
        }
    }
}

/// The pieces as `str::split_terminator` gives them: a last empty piece is
/// dropped.
pub open spec fn terminated_pieces(b: Seq<u8>) -> Seq<Seq<u8>> {
    let p = pieces(b);
    if p.last().len() == 0 {
        p.drop_last()
    } else {
        p
    }
}

/// Whether every byte of `d` is a decimal digit.
pub open spec fn all_decimal(d: Seq<u8>) -> bool {
    forall|i: int| 0 <= i < d.len() ==> 48 <= #[trigger] d[i] <= 57
}

/// The value of a run of decimal digits.
pub open spec fn decimal_value(d: Seq<u8>) -> int
    decreases d.len(),
{
    if d.len() == 0 {
        0
    } else {
        decimal_value(d.drop_last()) * 10 + (d.last() - 48)
    }
}

/// An id as `u32::from_str` reads it: an optional plus sign, then at least
/// one decimal digit, of a value that fits.
pub open spec fn parse_id(p: Seq<u8>) -> Option<u32> {
    let d = if p.len() > 0 && p[0] == PLUS {
        p.drop_first()
    } else {
        p
    };
    if d.len() > 0 && all_decimal(d) && decimal_value(d) <= u32::MAX {
        Some(decimal_value(d) as u32)
    } else {
        None
    }
}

/// The ids of all pieces, or `None` if one of them is no id.
pub open spec fn parse_ids(ps: Seq<Seq<u8>>) -> Option<Seq<u32>>
    decreases ps.len(),
{
    if ps.len() == 0 {
        Some(Seq::<u32>::empty())
    } else {
        match parse_ids(ps.drop_last()) {
            Some(v) => match parse_id(ps.last()) {
                Some(x) => Some(v.push(x)),
                None => None,
            },
            None => None,
        }
    }
}

/// The ids of a comma-terminated list.
pub open spec fn id_list_ids(b: Seq<u8>) -> Option<Seq<u32>> {
    parse_ids(terminated_pieces(b))
}

/// The bound, one past `u32::MAX`, at which a running decimal value is held.
const VALUE_CAP: u64 = 0x1_0000_0000;

proof fn lemma_decimal_nonneg(d: Seq<u8>)
    requires
        all_decimal(d),
    ensures
        decimal_value(d) >= 0,
    decreases d.len(),
{
    if d.len() > 0 {
        assert(all_decimal(d.drop_last()));
        lemma_decimal_nonneg(d.drop_last());
    }
}

/// Reads `b[start..end]` as an id.
fn parse_piece(b: &[u8], start: usize, end: usize) -> (r: Option<u32>)
    requires
        start <= end <= b@.len(),
    ensures
        r == parse_id(b@.subrange(start as int, end as int)),
{
    let ghost p = b@.subrange(start as int, end as int);
    let mut i = start;
    if i < end && b[i] == PLUS {
        i = i + 1;
        assert(p.drop_first() =~= b@.subrange(i as int, end as int));
    } else {
        assert(p =~= b@.subrange(i as int, end as int));
    }
    if i == end {
        return None;
    }
    let ghost first = i;
    let mut ok = true;
    let mut v: u64 = 0;
    while i < end
        invariant
            first <= i <= end <= b@.len(),
            ok == all_decimal(b@.subrange(first as int, i as int)),
            ok ==> v as int == if decimal_value(b@.subrange(first as int, i as int)) < VALUE_CAP {
                decimal_value(b@.subrange(first as int, i as int))
            } else {
                VALUE_CAP as int
            },
            ok ==> v <= VALUE_CAP,
        decreases end - i,
    {
        let ghost d = b@.subrange(first as int, i as int);
        let ghost d1 = b@.subrange(first as int, i as int + 1);
        assert(d1.drop_last() =~= d);
        assert(d1.last() == b@[i as int]);
        let c = b[i];
        if ok {
            if 48 <= c && c <= 57 {
                proof {
                    lemma_decimal_nonneg(d);
                }
                let w = v * 10 + (c - 48) as u64;
                v = if w > VALUE_CAP {
                    VALUE_CAP
                } else {
                    w
                };
                assert(all_decimal(d1)) by {
                    assert forall|j: int| 0 <= j < d1.len() implies 48 <= #[trigger] d1[j] <= 57 by {
                        if j < d.len() {
                            assert(d1[j] == d[j]);
                        }
                    }
                }
            } else {
                ok = false;
                assert(!all_decimal(d1)) by {
                    assert(d1[d1.len() - 1] == c);
                }
            }
        } else {
            assert(!all_decimal(d1)) by {
                let j = choose|j: int| 0 <= j < d.len() && !(48 <= #[trigger] d[j] <= 57);
                assert(d1[j] == d[j]);
            }
        }
        i = i + 1;
    }
    if ok && v <= u32::MAX as u64 {
        Some(v as u32)
    } else {
        None
    }
}

impl ToDelete {
    /// The ids to delete: the list's comma-separated pieces, a last empty
    /// piece dropped, each read as a `u32`; `None` if a piece is no id. An
    /// absent list holds no ids.
    pub fn ids(&self) -> (r: Option<Vec<u32>>)
        ensures
            ({
                let ids = match self.id_list {
                    Some(l) => id_list_ids(encode_utf8(l@)),
                    None => Some(Seq::<u32>::empty()),
                };
                match r {
                    Some(v) => ids == Some(v@),
                    None => ids is None,
                }
            }),
    {
        let list = match &self.id_list {
            Some(l) => l,
            None => {
                return Some(Vec::new());
            },
        };
        let b = list.as_str().as_bytes();
        let mut out: Vec<u32> = Vec::new();
        let mut ok = true;
        let mut start: usize = 0;
        let mut i: usize = 0;
        let ghost done: Seq<Seq<u8>> = Seq::empty();
        assert(b@.subrange(0, 0) =~= Seq::<u8>::empty());
        assert(pieces(b@.subrange(0, 0)) =~= done.push(b@.subrange(0, 0)));
        while i < b.len()
            invariant
                b@ == encode_utf8(list@),
                start <= i <= b@.len(),
                pieces(b@.subrange(0, i as int)) == done.push(b@.subrange(start as int, i as int)),
                ok ==> parse_ids(done) == Some(out@),
                !ok ==> parse_ids(done) is None,
            decreases b@.len() - i,
        {
            let ghost pre = b@.subrange(0, i as int + 1);
            assert(pre.drop_last() =~= b@.subrange(0, i as int));
            assert(pre.last() == b@[i as int]);
            if b[i] == COMMA {
                let ghost piece = b@.subrange(start as int, i as int);
                assert(done.push(piece).drop_last() =~= done);
                if ok {
                    match parse_piece(b, start, i) {
                        Some(x) => out.push(x),
                        None => ok = false,
                    }
                }
                proof {
                    done = done.push(piece);
                }
                start = i + 1;
                assert(b@.subrange(start as int, i as int + 1) =~= Seq::<u8>::empty());
                assert(pieces(pre) == pieces(b@.subrange(0, i as int)).push(Seq::<u8>::empty()));
                assert(pieces(pre) =~= done.push(b@.subrange(start as int, i as int + 1)));
            } else {
                assert(b@.subrange(start as int, i as int + 1) =~= b@.subrange(start as int, i as int).push(b@[i as int]));
                assert(pieces(pre) =~= done.push(b@.subrange(start as int, i as int + 1)));
            }
            i = i + 1;
        }
        assert(b@.subrange(0, b@.len() as int) =~= b@);
        let ghost last = b@.subrange(start as int, b@.len() as int);
        assert(pieces(b@) == done.push(last));
        assert(done.push(last).drop_last() =~= done);
        if start < b.len() {
            if ok {
                match parse_piece(b, start, b.len()) {
                    Some(x) => out.push(x),
                    None => ok = false,
                }
            }
        }
        if ok {
            Some(out)
        } else {
            None
        }
    }
}

/// Removes, for each id of `ids` in turn, the first person with that id;
/// returns how many were removed.
pub fn delete_ids(db: &mut DbConnection, ids: &Vec<u32>) -> (r: usize)
    ensures
        final(db).persons@ == persons_after_deleting(old(db).persons@, ids@),
        r == old(db).persons@.len() - final(db).persons@.len(),
        final(db).users@ == old(db).users@,
{
    let ghost start = db.persons@;
    let n = db.persons.len();
    let mut count: usize = 0;
    let mut i: usize = 0;
    while i < ids.len()
        invariant
            i <= ids@.len(),
            db.persons@ == persons_after_deleting(start, ids@.subrange(0, i as int)),
            count == start.len() - db.persons@.len(),
            db.persons@.len() <= start.len(),
            n == start.len(),
            db.users@ == old(db).users@,
            start == old(db).persons@,
        decreases ids@.len() - i,
    {
        proof {
            assert(ids@.subrange(0, i as int + 1).drop_last() =~= ids@.subrange(0, i as int));
            assert(ids@.subrange(0, i as int + 1).last() == ids@[i as int]);
        }
        let ghost before = db.persons@;
        let removed = db.delete_by_id(ids[i]);
        proof {
            lemma_person_index(before, ids@[i as int]);
            if removed {
                before.remove_ensures(person_index(before, ids@[i as int]));
            }
        }
        if removed {
            count = count + 1;
        }
        i = i + 1;
    }
    assert(ids@.subrange(0, ids@.len() as int) =~= ids@);
    count
}

/// The persons left after deleting, for each id of `ids` in turn, the first
/// person with that id.
pub open spec fn persons_after_deleting(ps: Seq<Person>, ids: Seq<u32>) -> Seq<Person>
    decreases ids.len(),
{
    if ids.len() == 0 {
        ps
    } else {
        let before = persons_after_deleting(ps, ids.drop_last());
        let k = person_index(before, ids.last());
        if k < before.len() {
            before.remove(k)
        } else {
            before
        }
    }
}

/// The persons a search returns: those whose name contains the filter's
/// name part, in stored order.
pub fn get_persons(db: &DbConnection, filter: &Filter) -> (r: Vec<Person>)
    ensures
        r@ == persons_matching(
            db.persons@,
            match filter.partial_name {
                Some(n) => n@,
                None => Seq::<char>::empty(),
            },
        ),
{
    let part = filter.name_part();
    db.get_persons_by_partial_name(part.as_str())
}

/// Carries out a deletion query: if every piece of the list is an id,
/// deletes those ids in turn and returns how many persons went; otherwise
/// changes nothing and returns `None`.
pub fn delete_persons(db: &mut DbConnection, query: &ToDelete) -> (r: Option<usize>)
    ensures
        ({
            let ids = match query.id_list {
                Some(l) => id_list_ids(encode_utf8(l@)),
                None => Some(Seq::<u32>::empty()),
            };
            match ids {
                Some(v) => {
                    &&& final(db).persons@ == persons_after_deleting(old(db).persons@, v)
                    &&& r == Some((old(db).persons@.len() - final(db).persons@.len()) as usize)
                },
                None => {
                    &&& r is None
                    &&& final(db).persons@ == old(db).persons@
                },
            }
        }),
        final(db).users@ == old(db).users@,
{
    match query.ids() {
        Some(ids) => Some(delete_ids(db, &ids)),
        None => None,
    }
}

/// Checks a user name and password against the store; on success returns
/// the user.
pub fn authenticate(db: &DbConnection, user_id: &str, password: Option<&str>) -> (r: Result<
    User,
    CredentialError,
>)
    ensures
        ({
            let k = user_index(db.users@, user_id@);
            if k == db.users@.len() {
                r is Err && r->Err_0 == CredentialError::UserNotFound
            } else if password.is_none() || password->0@ != db.users@[k].password@ {
                r is Err && r->Err_0 == CredentialError::InvalidPassword
            } else {
                &&& r is Ok
                &&& r->Ok_0.username@ == db.users@[k].username@
                &&& r->Ok_0.password@ == db.users@[k].password@
                &&& r->Ok_0.privileges@ == db.users@[k].privileges@
            }
        }),
{
    proof {
        lemma_user_index(db.users@, user_id@);
    }
    let user = match db.get_user_by_username(user_id) {
        Some(u) => u,
        None => {
            return Err(CredentialError::UserNotFound);
        },
    };
    match password {
        Some(p) => {
            if user.password == p.to_owned() {
                Ok(user)
            } else {
                Err(CredentialError::InvalidPassword)
            }
        },
        None => Err(CredentialError::InvalidPassword),
    }
}

} // verus!
