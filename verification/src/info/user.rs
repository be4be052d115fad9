//! Principals: the password check and the cache of loaded users.

use std::collections::HashMap;
use vstd::prelude::*;
use vstd::utf8::encode_utf8;
use crate::info::cache::after_add;
use crate::info::cache::after_get;
use crate::info::cache::after_release;
use crate::info::cache::distinct;
use crate::info::cache::find;
use crate::info::cache::lemma_find;
use crate::info::cache::lemma_one_value;
use crate::info::cache::hit;
use crate::info::cache::SlotView;
use crate::info::cache::WeakCache;
use crate::info::stash::gather;
use crate::info::stash::FileRow;
use crate::info::stash::Stash;
use crate::text::chars_of;
use crate::text::decimal;
use crate::text::decimal_of;
use crate::text::digit;
use crate::text::digit_value;
use crate::text::lemma_decimal;
use crate::text::lemma_position;
use crate::text::digit_char;
use crate::text::same;
use crate::text::split_once;
use crate::text::split_once_at;
use crate::text::string_of;

verus! {

/// The SHA3-256 digest of a message.
pub uninterp spec fn sha3_256_digest(data: Seq<u8>) -> Seq<u8>;

/// `sha3::Sha3_256::digest` hashes the whole message at once; the digest
/// depends on the message alone.
#[verifier::external_body]
fn sha3_256(data: &[u8]) -> (digest: Vec<u8>)
    ensures
        digest@ == sha3_256_digest(data@),
{
    <sha3::Sha3_256 as sha3::Digest>::digest(data).to_vec()
}

/// The character of one hexadecimal digit, in lower case.
pub open spec fn hex_digit(d: nat) -> char
    recommends
        d < 16,
{
    if d < 10 {
        digit(d)
    } else if d == 10 {
        'a'
    } else if d == 11 {
        'b'
    } else if d == 12 {
        'c'
    } else if d == 13 {
        'd'
    } else if d == 14 {
        'e'
    } else {
        'f'
    }
}

/// The bytes in lower-case hexadecimal, two digits each.
pub open spec fn hex(bytes: Seq<u8>) -> Seq<char>
    decreases bytes.len(),
{
    if bytes.len() == 0 {
        seq![]
    } else {
        hex(bytes.drop_last()).push(hex_digit((bytes.last() / 16) as nat)).push(
            hex_digit((bytes.last() % 16) as nat),
        )
    }
}

fn hex_char(d: u8) -> (c: char)
    requires
        d < 16,
    ensures
        c == hex_digit(d as nat),
{
    if d < 10 {
        digit_char(d)
    } else if d == 10 {
        'a'
    } else if d == 11 {
        'b'
    } else if d == 12 {
        'c'
    } else if d == 13 {
        'd'
    } else if d == 14 {
        'e'
    } else {
        'f'
    }
}

/// Writes bytes in lower-case hexadecimal.
pub fn hex_of(bytes: &Vec<u8>) -> (out: Vec<char>)
    ensures
        out@ == hex(bytes@),
{
    let mut out: Vec<char> = Vec::new();
    let mut i: usize = 0;
    while i < bytes.len()
        invariant
            i <= bytes.len(),
            out@ == hex(bytes@.take(i as int)),
        decreases bytes.len() - i,
    {
        proof {
            assert(bytes@.take(i + 1).drop_last() == bytes@.take(i as int));
        }
        let b = bytes[i];
        out.push(hex_char(b / 16));
        out.push(hex_char(b % 16));
        i += 1;
    }
    assert(bytes@.take(bytes.len() as int) == bytes@);
    out
}

/// Whether `password` is the one that the stored `<salt>.<digest>` stands
/// for: the digest must be the SHA3-256 of salt and password, in lower-case
/// hexadecimal. A stored value without a dot matches nothing.
pub open spec fn password_matches(stored: Seq<char>, password: Seq<char>) -> bool {
    match split_once(stored, '.') {
        Some((salt, digest)) => hex(sha3_256_digest(encode_utf8(salt + password))) == digest,
        None => false,
    }
}

/// An authenticated identity as the database holds it. Never changed once
/// loaded.
pub struct User {
    id: u64,
    username: String,
    password_hash: String,
}

impl User {
    /// The database id.
    pub closed spec fn spec_id(&self) -> u64 {
        self.id
    }

    /// The login name.
    pub closed spec fn spec_username(&self) -> Seq<char> {
        self.username@
    }

    /// The stored `<salt>.<digest>`.
    pub closed spec fn spec_password_hash(&self) -> Seq<char> {
        self.password_hash@
    }

    /// The principal named `username`, from the row that the database holds
    /// for that name.
    pub fn from_db_username(username: &str, id: u64, password: String) -> (user: User)
        ensures
            user.spec_id() == id,
            user.spec_username() == username@,
            user.spec_password_hash() == password@,
    {
        User { id, username: String::from_str(username), password_hash: password }
    }

    /// Whether `password` matches the stored hash.
    pub fn check_password(&self, password: &str) -> (ok: bool)
        ensures
            ok == password_matches(self.spec_password_hash(), password@),
    {
        let stored = chars_of(self.password_hash.as_str());
        match split_once_at(&stored, '.') {
            Some((salt, digest)) => {
                let mut prep = string_of(&salt);
                prep.append(password);
                let bytes = prep.as_str().as_bytes_vec();
                let hash = sha3_256(bytes.as_slice());
                let text = hex_of(&hash);
                same(&text, &digest)
            },
            None => false,
        }
    }

    /// The database id.
    pub fn id(&self) -> (id: u64)
        ensures
            id == self.spec_id(),
    {
        self.id
    }

    /// The login name.
    pub fn username(&self) -> (name: &str)
        ensures
            name@ == self.spec_username(),
    {
        self.username.as_str()
    }

    /// A copy of this principal.
    pub fn duplicate(&self) -> (copy: User)
        ensures
            copy == *self,
    {
        User {
            id: self.id,
            username: self.username.clone(),
            password_hash: self.password_hash.clone(),
        }
    }
}

/// The key under which the stash `name` of the principal `owner` is cached.
pub open spec fn stash_key(owner: u64, name: Seq<char>) -> Seq<char> {
    decimal(owner as nat) + seq!['/'] + name
}

/// Different stashes have different keys.
pub proof fn lemma_stash_key(a: u64, x: Seq<char>, b: u64, y: Seq<char>)
    requires
        stash_key(a, x) == stash_key(b, y),
    ensures
        a == b,
        x == y,
{
    let da = decimal(a as nat);
    let db = decimal(b as nat);
    lemma_decimal(a as nat);
    lemma_decimal(b as nat);
    let key = stash_key(a, x);
    assert forall|i: int| 0 <= i < da.len() implies key[i] != '/' by {
        assert(key[i] == da[i]);
        assert(digit_value(da[i]) is Some);
    }
    assert(key[da.len() as int] == '/');
    lemma_position(key, '/', da.len() as int);
    let other = stash_key(b, y);
    assert forall|i: int| 0 <= i < db.len() implies other[i] != '/' by {
        assert(other[i] == db[i]);
        assert(digit_value(db[i]) is Some);
    }
    assert(other[db.len() as int] == '/');
    lemma_position(other, '/', db.len() as int);
    assert(da == key.take(da.len() as int));
    assert(db == other.take(db.len() as int));
    assert(x == key.skip(da.len() as int + 1));
    assert(y == other.skip(db.len() as int + 1));
}

/// The slot that a lookup by id hands out. An id stands for the principal
/// that was installed last under it: `ids` holds the name of that principal,
/// and the lookup finds it as long as the slot of that name is alive and
/// still holds a principal of this id.
pub open spec fn id_hit(users: Seq<SlotView<User>>, ids: Map<u64, Seq<char>>, id: u64) -> Option<
    int,
> {
    if ids.contains_key(id) {
        match hit(users, ids[id]) {
            Some(i) => if users[i].value.spec_id() == id {
                Some(i)
            } else {
                None
            },
            None => None,
        }
    } else {
        None
    }
}

/// A principal that was installed is found by its id as well as by its
/// name: right after it was installed for a name that was not alive, both
/// lookups hand out this one principal, whatever other names the id was
/// known under before.
pub proof fn lemma_indexes_agree(
    users: Seq<SlotView<User>>,
    ids: Map<u64, Seq<char>>,
    name: Seq<char>,
    loaded: User,
)
    requires
        distinct(users),
        hit(users, name) is None,
    ensures
        hit(after_add(users, name, loaded), name) == Some(find(users, name)),
        id_hit(
            after_add(users, name, loaded),
            ids.insert(loaded.spec_id(), name),
            loaded.spec_id(),
        ) == Some(find(users, name)),
        after_add(users, name, loaded)[find(users, name)].value == loaded,
{
    lemma_one_value(users, name, loaded);
    lemma_find(users, name);
}

/// The principals that are loaded and the stashes that are open, shared by
/// all connections. Neither is kept alive by being here: what nobody holds
/// any more is dropped at the next lookup of its name.
pub struct UserPool {
    users: WeakCache<User>,
    ids: HashMap<u64, String>,
    stashes: WeakCache<Stash>,
}

impl UserPool {
    /// The principals, by login name.
    pub closed spec fn users(&self) -> Seq<SlotView<User>> {
        self.users.slots()
    }

    /// For each id, the name of the principal that was installed last
    /// under it.
    pub closed spec fn ids(&self) -> Map<u64, Seq<char>> {
        Map::new(|id: u64| self.ids@.contains_key(id), |id: u64| self.ids@[id]@)
    }

    /// The stashes, by `stash_key`.
    pub closed spec fn stashes(&self) -> Seq<SlotView<Stash>> {
        self.stashes.slots()
    }

    /// No two principals have the same name, and no two stashes the same
    /// key.
    pub open spec fn sound(&self) -> bool {
        distinct(self.users()) && distinct(self.stashes())
    }

    /// Brings to light that the pool is sound.
    fn sound_now(&self)
        ensures
            self.sound(),
    {
        let users = self.users.len();
        let stashes = self.stashes.len();
    }

    /// A pool that holds nothing.
    pub fn new() -> (pool: UserPool)
        ensures
            pool.users() == Seq::<SlotView<User>>::empty(),
            pool.ids() == Map::<u64, Seq<char>>::empty(),
            pool.stashes() == Seq::<SlotView<Stash>>::empty(),
            pool.sound(),
    {
        let pool = UserPool { users: WeakCache::new(), ids: HashMap::new(), stashes: WeakCache::new() };
        assert(pool.ids() =~= Map::<u64, Seq<char>>::empty());
        pool
    }

    /// The principal of the given name, if it is loaded and held by someone;
    /// the caller becomes one more holder. A principal that nobody holds any
    /// more is dropped. After a miss the database is to be asked, and its
    /// answer handed to `install`.
    pub fn get(&mut self, username: &str) -> (found: Option<User>)
        ensures
            old(self).sound(),
            final(self).sound(),
            final(self).users() == after_get(old(self).users(), username@),
            final(self).ids() == old(self).ids(),
            final(self).stashes() == old(self).stashes(),
            match found {
                Some(user) => hit(old(self).users(), username@) matches Some(i) && user == old(
                    self,
                ).users()[i].value,
                None => hit(old(self).users(), username@) is None,
            },
    {
        self.sound_now();
        match self.users.get(username) {
            Some(i) => Some(self.users.value(i).duplicate()),
            None => None,
        }
    }

    /// The principal that the given database id stands for, if it is held by
    /// someone; the caller becomes one more holder. An id whose principal is
    /// dead or gone is forgotten.
    pub fn get_by_id(&mut self, id: u64) -> (found: Option<User>)
        ensures
            old(self).sound(),
            final(self).sound(),
            final(self).stashes() == old(self).stashes(),
            match id_hit(old(self).users(), old(self).ids(), id) {
                Some(i) => {
                    &&& found == Some(old(self).users()[i].value)
                    &&& final(self).users() == after_get(old(self).users(), old(self).ids()[id])
                    &&& final(self).ids() == old(self).ids()
                },
                None => {
                    &&& found is None
                    &&& final(self).users() == old(self).users()
                    &&& final(self).ids() == old(self).ids().remove(id)
                },
            },
    {
        broadcast use vstd::std_specs::hash::group_hash_axioms;

        self.sound_now();
        let ghost users = self.users.slots();
        let ghost ids = self.ids();
        let name = match self.ids.get(&id) {
            Some(name) => name.clone(),
            None => {
                assert(self.ids() =~= ids.remove(id));
                return None;
            },
        };
        assert(ids.contains_key(id) && ids[id] == name@);
        proof {
            lemma_find(users, name@);
        }
        let i = self.users.find(name.as_str());
        if i < self.users.len() && self.users.holders(i) > 0 && self.users.value(i).id() == id {
            match self.users.get(name.as_str()) {
                Some(j) => Some(self.users.value(j).duplicate()),
                None => None,
            }
        } else {
            self.ids.remove(&id);
            assert(self.ids() =~= ids.remove(id));
            None
        }
    }

    /// Takes in what the database holds for `username` after a miss: the id
    /// and the stored password of the user, or nothing.
    ///
    /// The principal is installed under its name and under its id, and
    /// handed out with the caller as its holder. If the name has come alive
    /// in the meantime, the principal that is there is handed out instead,
    /// so that there is never more than one live principal per name.
    pub fn install(&mut self, username: &str, row: Option<(u64, String)>) -> (found: Option<User>)
        ensures
            old(self).sound(),
            final(self).sound(),
            final(self).stashes() == old(self).stashes(),
            final(self).ids() == match row {
                Some((id, password)) => if hit(old(self).users(), username@) is None {
                    old(self).ids().insert(id, username@)
                } else {
                    old(self).ids()
                },
                None => old(self).ids(),
            },
            match row {
                Some((id, password)) => {
                    &&& found matches Some(user)
                    &&& exists|loaded: User|
                        {
                            &&& #[trigger] loaded.spec_id() == id
                            &&& loaded.spec_username() == username@
                            &&& loaded.spec_password_hash() == password@
                            &&& final(self).users() == after_add(
                                old(self).users(),
                                username@,
                                loaded,
                            )
                            &&& user == match hit(old(self).users(), username@) {
                                Some(i) => old(self).users()[i].value,
                                None => loaded,
                            }
                        }
                },
                None => found is None && final(self).users() == old(self).users(),
            },
    {
        broadcast use vstd::std_specs::hash::group_hash_axioms;

        self.sound_now();
        match row {
            Some((id, password)) => {
                let loaded = User::from_db_username(username, id, password);
                let ghost before = self.users.slots();
                let ghost ids = self.ids();
                proof {
                    lemma_find(before, username@);
                }
                let at = self.users.find(username);
                let alive = at < self.users.len() && self.users.holders(at) > 0;
                let i = self.users.add(username, loaded);
                if !alive {
                    self.ids.insert(id, String::from_str(username));
                    assert(self.ids() =~= ids.insert(id, username@));
                }
                let user = self.users.value(i).duplicate();
                Some(user)
            },
            None => None,
        }
    }

    /// One holder of the principal of the given name lets go.
    pub fn release(&mut self, username: &str)
        ensures
            final(self).ids() == old(self).ids(),
            old(self).sound(),
            final(self).sound(),
            final(self).users() == after_release(old(self).users(), username@),
            final(self).stashes() == old(self).stashes(),
    {
        self.sound_now();
        self.users.release(username);
    }

    /// The stash `name` of `owner`, if it is open and held by someone; the
    /// caller becomes one more holder. A stash that nobody holds any more is
    /// dropped. After a miss the database is to be asked, and its answer
    /// handed to `load_stash`.
    pub fn get_shash(&mut self, owner: &User, name: &str) -> (found: Option<Stash>)
        ensures
            final(self).ids() == old(self).ids(),
            old(self).sound(),
            final(self).sound(),
            final(self).users() == old(self).users(),
            final(self).stashes() == after_get(
                old(self).stashes(),
                stash_key(owner.spec_id(), name@),
            ),
            match found {
                Some(stash) => hit(old(self).stashes(), stash_key(owner.spec_id(), name@))
                    matches Some(i) && stash.entries() == old(self).stashes()[i].value.entries(),
                None => hit(old(self).stashes(), stash_key(owner.spec_id(), name@)) is None,
            },
    {
        self.sound_now();
        let key = UserPool::key_of(owner.id(), name);
        match self.stashes.get(key.as_str()) {
            Some(i) => Some(self.stashes.value(i).duplicate()),
            None => None,
        }
    }

    /// Takes in what the database holds for the stash `name` of `owner`
    /// after a miss: the rows of its files, or nothing if there is no such
    /// stash.
    ///
    /// The stash is installed and handed out with the caller as its holder.
    /// If the name has come alive in the meantime, the stash that is there is
    /// handed out instead.
    pub fn load_stash(&mut self, owner: &User, name: &str, rows: Option<Vec<FileRow>>) -> (found:
        Option<Stash>)
        ensures
            final(self).ids() == old(self).ids(),
            old(self).sound(),
            final(self).sound(),
            final(self).users() == old(self).users(),
            match rows {
                Some(files) => {
                    let key = stash_key(owner.spec_id(), name@);
                    &&& found matches Some(stash)
                    &&& exists|loaded: Stash|
                        {
                            &&& #[trigger] loaded.entries() == gather(
                                files@.map_values(|r: FileRow| r@),
                            )
                            &&& final(self).stashes() == after_add(
                                old(self).stashes(),
                                key,
                                loaded,
                            )
                            &&& stash.entries() == match hit(old(self).stashes(), key) {
                                Some(i) => old(self).stashes()[i].value.entries(),
                                None => loaded.entries(),
                            }
                        }
                },
                None => found is None && final(self).stashes() == old(self).stashes(),
            },
    {
        self.sound_now();
        match rows {
            Some(files) => {
                let key = UserPool::key_of(owner.id(), name);
                let loaded = Stash::new(files);
                let ghost before = self.stashes.slots();
                proof {
                    crate::info::cache::lemma_find(before, key@);
                }
                let i = self.stashes.add(key.as_str(), loaded);
                Some(self.stashes.value(i).duplicate())
            },
            None => None,
        }
    }

    /// One holder of the stash `name` of `owner` lets go.
    pub fn release_stash(&mut self, owner: &User, name: &str)
        ensures
            final(self).ids() == old(self).ids(),
            old(self).sound(),
            final(self).sound(),
            final(self).users() == old(self).users(),
            final(self).stashes() == after_release(
                old(self).stashes(),
                stash_key(owner.spec_id(), name@),
            ),
    {
        self.sound_now();
        let key = UserPool::key_of(owner.id(), name);
        self.stashes.release(key.as_str());
    }

    /// The cache key of a stash.
    fn key_of(owner: u64, name: &str) -> (key: String)
        ensures
            key@ == stash_key(owner, name@),
    {
        let mut text = decimal_of(owner as u128);
        text.push('/');
        let mut key = string_of(&text);
        key.append(name);
        key
    }
}

} // verus!
