use vstd::prelude::*;
use vstd::string::{StrSliceExecFns, StringExecFns};

use crate::textenc::u64_to_string;

verus! {

/// One stored credential: the `password` field holds the ciphertext string
/// written by the cipher, never the plaintext secret.
#[derive(Debug)]
pub struct EncryptedPasswordItem {
    pub id: String,
    pub title: String,
    pub username: String,
    pub password: String,
    pub url: String,
    pub notes: String,
    pub category: String,
    pub created_at: u64,
    pub updated_at: u64,
}

/// The fields a caller supplies when creating an entry; `password` is the
/// plaintext secret, held only in memory.
#[derive(Debug)]
pub struct CreatePasswordItem {
    pub title: String,
    pub username: String,
    pub password: String,
    pub url: String,
    pub notes: String,
    pub category: String,
}

/// One decrypted credential: the transient, in-memory form of an entry with
/// the plaintext secret; never persisted.
#[derive(Debug)]
pub struct PasswordItem {
    pub id: String,
    pub title: String,
    pub username: String,
    pub password: String,
    pub url: String,
    pub notes: String,
    pub category: String,
    pub created_at: u64,
    pub updated_at: u64,
}

/// A display grouping for entries; entries refer to a category by name, with
/// no enforced link.
#[derive(Debug)]
pub struct Category {
    pub id: String,
    pub name: String,
    pub icon: String,
}

/// The whole vault document: the master-password hash, the hex-encoded
/// key-derivation salt, and the ordered entry and category lists.
#[derive(Debug)]
pub struct PasswordVault {
    pub master_password_hash: String,
    pub salt: String,
    pub passwords: Vec<EncryptedPasswordItem>,
    pub categories: Vec<Category>,
}

/// True when no two entries share an id.
pub open spec fn unique_entry_ids(items: Seq<EncryptedPasswordItem>) -> bool {
    forall|i: int, j: int| 0 <= i < j < items.len() ==> items[i].id@ != items[j].id@
}

/// True when no two categories share an id.
pub open spec fn unique_category_ids(items: Seq<Category>) -> bool {
    forall|i: int, j: int| 0 <= i < j < items.len() ==> items[i].id@ != items[j].id@
}

/// True when some entry carries the given id.
pub open spec fn entry_id_taken(items: Seq<EncryptedPasswordItem>, id: Seq<char>) -> bool {
    exists|i: int| 0 <= i < items.len() && items[i].id@ == id
}

/// True when some category carries the given id.
pub open spec fn category_id_taken(items: Seq<Category>, id: Seq<char>) -> bool {
    exists|i: int| 0 <= i < items.len() && items[i].id@ == id
}

/// Two vault values that hold the same document.
pub open spec fn same_vault(a: PasswordVault, b: PasswordVault) -> bool {
    &&& a.master_password_hash == b.master_password_hash
    &&& a.salt == b.salt
    &&& a.passwords@ == b.passwords@
    &&& a.categories@ == b.categories@
}

impl PasswordVault {
    /// Internal consistency of a vault document: entry ids are unique and
    /// category ids are unique.
    pub open spec fn wf(&self) -> bool {
        unique_entry_ids(self.passwords@) && unique_category_ids(self.categories@)
    }
}

impl EncryptedPasswordItem {
    /// An owned copy with the same fields.
    pub fn duplicate(&self) -> (r: Self)
        ensures
            r == *self,
    {
        EncryptedPasswordItem {
            id: self.id.clone(),
            title: self.title.clone(),
            username: self.username.clone(),
            password: self.password.clone(),
            url: self.url.clone(),
            notes: self.notes.clone(),
            category: self.category.clone(),
            created_at: self.created_at,
            updated_at: self.updated_at,
        }
    }
}

impl Category {
    /// An owned copy with the same fields.
    pub fn duplicate(&self) -> (r: Self)
        ensures
            r == *self,
    {
        Category { id: self.id.clone(), name: self.name.clone(), icon: self.icon.clone() }
    }
}

impl PasswordVault {
    /// An owned copy holding the same document.
    pub fn duplicate(&self) -> (r: Self)
        ensures
            same_vault(r, *self),
    {
        let mut passwords: Vec<EncryptedPasswordItem> = Vec::new();
        let n = self.passwords.len();
        for i in 0..n
            invariant
                n == self.passwords@.len(),
                passwords@ =~= self.passwords@.take(i as int),
        {
            passwords.push(self.passwords[i].duplicate());
            proof {
                assert(passwords@ =~= self.passwords@.take(i + 1));
            }
        }
        let mut categories: Vec<Category> = Vec::new();
        let m = self.categories.len();
        for i in 0..m
            invariant
                m == self.categories@.len(),
                categories@ =~= self.categories@.take(i as int),
        {
            categories.push(self.categories[i].duplicate());
            proof {
                assert(categories@ =~= self.categories@.take(i + 1));
            }
        }
        proof {
            assert(passwords@ =~= self.passwords@);
            assert(categories@ =~= self.categories@);
        }
        PasswordVault {
            master_password_hash: self.master_password_hash.clone(),
            salt: self.salt.clone(),
            passwords,
            categories,
        }
    }
}

/// Hands back the cached vault when one is present; the caller falls back to
/// loading the stored document otherwise.
pub fn get_vault(cache: &Option<PasswordVault>) -> (r: Option<PasswordVault>)
    ensures
        r is Some <==> cache is Some,
        r is Some ==> same_vault(r->0, cache->0),
{
    match cache {
        Some(v) => Some(v.duplicate()),
        None => None,
    }
}

/// Reports whether some entry carries the given id.
pub fn entry_id_exists(items: &Vec<EncryptedPasswordItem>, id: &String) -> (r: bool)
    ensures
        r == entry_id_taken(items@, id@),
{
    let n = items.len();
    for i in 0..n
        invariant
            n == items@.len(),
            forall|k: int| 0 <= k < i ==> items@[k].id@ != id@,
    {
        if items[i].id == *id {
            return true;
        }
    }
    false
}

/// Reports whether some category carries the given id.
pub fn category_id_exists(items: &Vec<Category>, id: &String) -> (r: bool)
    ensures
        r == category_id_taken(items@, id@),
{
    let n = items.len();
    for i in 0..n
        invariant
            n == items@.len(),
            forall|k: int| 0 <= k < i ==> items@[k].id@ != id@,
    {
        if items[i].id == *id {
            return true;
        }
    }
    false
}

/// The position of the entry with the given id, when one exists.
pub fn find_entry_index(items: &Vec<EncryptedPasswordItem>, id: &String) -> (r: Option<usize>)
    ensures
        r is Some ==> r->0 < items@.len() && items@[r->0 as int].id@ == id@,
        r is None ==> !entry_id_taken(items@, id@),
{
    let n = items.len();
    for i in 0..n
        invariant
            n == items@.len(),
            forall|k: int| 0 <= k < i ==> items@[k].id@ != id@,
    {
        if items[i].id == *id {
            return Some(i);
        }
    }
    None
}

/// The position of the category with the given id, when one exists.
pub fn find_category_index(items: &Vec<Category>, id: &String) -> (r: Option<usize>)
    ensures
        r is Some ==> r->0 < items@.len() && items@[r->0 as int].id@ == id@,
        r is None ==> !category_id_taken(items@, id@),
{
    let n = items.len();
    for i in 0..n
        invariant
            n == items@.len(),
            forall|k: int| 0 <= k < i ==> items@[k].id@ != id@,
    {
        if items[i].id == *id {
            return Some(i);
        }
    }
    None
}

/// An id not carried by any entry: the decimal notation of `base` (a
/// millisecond timestamp in ordinary use), extended while it collides.
pub fn fresh_entry_id(items: &Vec<EncryptedPasswordItem>, base: u64) -> (r: String)
    ensures
        !entry_id_taken(items@, r@),
        r@.len() >= 1,
{
    let mut max_len: usize = 0;
    let n = items.len();
    for i in 0..n
        invariant
            n == items@.len(),
            forall|k: int| 0 <= k < i ==> items@[k].id@.len() <= max_len,
    {
        let l = items[i].id.as_str().unicode_len();
        if l > max_len {
            max_len = l;
        }
    }
    let mut id = u64_to_string(base);
    let mut id_len = id.as_str().unicode_len();
    loop
        invariant
            n == items@.len(),
            forall|k: int| 0 <= k < n ==> items@[k].id@.len() <= max_len,
            id_len == id@.len(),
            id@.len() >= 1,
        decreases (if id_len <= max_len {
            max_len + 1 - id_len
        } else {
            0
        }),
    {
        if !entry_id_exists(items, &id) {
            return id;
        }
        proof {
            let k = choose|k: int| 0 <= k < items@.len() && items@[k].id@ == id@;
            assert(items@[k].id@.len() <= max_len);
        }
        proof {
            reveal_strlit("x");
        }
        id.append("x");
        id_len = id.as_str().unicode_len();
    }
}

/// An id not carried by any category: the decimal notation of `base`,
/// extended while it collides.
pub fn fresh_category_id(items: &Vec<Category>, base: u64) -> (r: String)
    ensures
        !category_id_taken(items@, r@),
        r@.len() >= 1,
{
    let mut max_len: usize = 0;
    let n = items.len();
    for i in 0..n
        invariant
            n == items@.len(),
            forall|k: int| 0 <= k < i ==> items@[k].id@.len() <= max_len,
    {
        let l = items[i].id.as_str().unicode_len();
        if l > max_len {
            max_len = l;
        }
    }
    let mut id = u64_to_string(base);
    let mut id_len = id.as_str().unicode_len();
    loop
        invariant
            n == items@.len(),
            forall|k: int| 0 <= k < n ==> items@[k].id@.len() <= max_len,
            id_len == id@.len(),
            id@.len() >= 1,
        decreases (if id_len <= max_len {
            max_len + 1 - id_len
        } else {
            0
        }),
    {
        if !category_id_exists(items, &id) {
            return id;
        }
        proof {
            let k = choose|k: int| 0 <= k < items@.len() && items@[k].id@ == id@;
            assert(items@[k].id@.len() <= max_len);
        }
        proof {
            reveal_strlit("x");
        }
        id.append("x");
        id_len = id.as_str().unicode_len();
    }
}

} // verus!
