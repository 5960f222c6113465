use vstd::prelude::*;
use vstd::string::StringExecFns;
use vstd::utf8::encode_utf8;

use crate::auth::{bcrypt_hash_wellformed, bcrypt_matches, hash_master_password,
    spec_verify_master_password};
use crate::blockcipher::{encrypt_data, decrypt_data, lemma_cipher_round_trip, random_bytes_16,
    spec_decrypt_data, spec_encrypt_blocks, spec_pad};
use crate::errors::{CipherError, VaultError};
use crate::hexcodec::{hex_decode, hex_encode, lemma_hex_round_trip, spec_hex_chars,
    spec_hex_decode, spec_is_hex};
use crate::kdf::{derive_key, spec_derive_key};
use crate::vault::{category_id_taken, entry_id_taken, find_category_index, find_entry_index,
    fresh_category_id, fresh_entry_id, same_vault, unique_category_ids, unique_entry_ids, Category,
    CreatePasswordItem, EncryptedPasswordItem, PasswordItem, PasswordVault};

verus! {

/// True when the vault's stored master-password hash is a well-formed hash
/// string.
pub open spec fn hash_ok(vault: PasswordVault) -> bool {
    bcrypt_hash_wellformed(vault.master_password_hash@)
}

/// True when the given master password matches the vault's stored hash.
pub open spec fn auth_ok(vault: PasswordVault, password: Seq<char>) -> bool {
    bcrypt_matches(encode_utf8(password), vault.master_password_hash@)
}

/// True when the vault's stored salt is well-formed hex.
pub open spec fn salt_ok(vault: PasswordVault) -> bool {
    spec_is_hex(encode_utf8(vault.salt@))
}

/// The symmetric key that the vault's salt and a master password derive.
pub open spec fn vault_key(vault: PasswordVault, password: Seq<char>) -> Seq<u8> {
    spec_derive_key(password, spec_hex_decode(encode_utf8(vault.salt@)))
}

/// True when every stored secret decrypts under the key.
pub open spec fn all_entries_decrypt(items: Seq<EncryptedPasswordItem>, key: Seq<u8>) -> bool {
    forall|i: int|
        0 <= i < items.len() ==> spec_decrypt_data(#[trigger] items[i].password@, key) is Ok
}

/// The decrypted form of one stored entry under a key: every plain field is
/// carried over and the secret decrypts to the plaintext.
pub open spec fn decrypts_to(e: EncryptedPasswordItem, p: PasswordItem, key: Seq<u8>) -> bool {
    &&& p.id@ == e.id@
    &&& p.title@ == e.title@
    &&& p.username@ == e.username@
    &&& spec_decrypt_data(e.password@, key) == Ok::<Seq<char>, CipherError>(p.password@)
    &&& p.url@ == e.url@
    &&& p.notes@ == e.notes@
    &&& p.category@ == e.category@
    &&& p.created_at == e.created_at
    &&& p.updated_at == e.updated_at
}

/// The stored form of a freshly written secret: the plain fields of the
/// request are carried over, both timestamps are the write time, and the
/// ciphertext decrypts back to the request's plaintext under the key.
pub open spec fn encrypts_create(
    e: EncryptedPasswordItem,
    c: CreatePasswordItem,
    key: Seq<u8>,
    now: u64,
) -> bool {
    &&& e.title@ == c.title@
    &&& e.username@ == c.username@
    &&& spec_decrypt_data(e.password@, key) == Ok::<Seq<char>, CipherError>(c.password@)
    &&& e.url@ == c.url@
    &&& e.notes@ == c.notes@
    &&& e.category@ == c.category@
    &&& e.created_at == now
    &&& e.updated_at == now
}

/// The shape of the category list a fresh vault starts with.
pub open spec fn spec_default_categories(cats: Seq<Category>) -> bool {
    &&& cats.len() == 5
    &&& cats[0].id@ == "1"@ && cats[0].name@ == "所有"@ && cats[0].icon@ == "📁"@
    &&& cats[1].id@ == "2"@ && cats[1].name@ == "个人"@ && cats[1].icon@ == "👤"@
    &&& cats[2].id@ == "3"@ && cats[2].name@ == "工作"@ && cats[2].icon@ == "💼"@
    &&& cats[3].id@ == "4"@ && cats[3].name@ == "金融"@ && cats[3].icon@ == "💰"@
    &&& cats[4].id@ == "5"@ && cats[4].name@ == "社交媒体"@ && cats[4].icon@ == "📱"@
}

/// Builds the default category list.
fn default_categories() -> (r: Vec<Category>)
    ensures
        spec_default_categories(r@),
        unique_category_ids(r@),
{
    let mut v: Vec<Category> = Vec::new();
    v.push(
        Category {
            id: String::from_str("1"),
            name: String::from_str("所有"),
            icon: String::from_str("📁"),
        },
    );
    v.push(
        Category {
            id: String::from_str("2"),
            name: String::from_str("个人"),
            icon: String::from_str("👤"),
        },
    );
    v.push(
        Category {
            id: String::from_str("3"),
            name: String::from_str("工作"),
            icon: String::from_str("💼"),
        },
    );
    v.push(
        Category {
            id: String::from_str("4"),
            name: String::from_str("金融"),
            icon: String::from_str("💰"),
        },
    );
    v.push(
        Category {
            id: String::from_str("5"),
            name: String::from_str("社交媒体"),
            icon: String::from_str("📱"),
        },
    );
    proof {
        reveal_strlit("1");
        reveal_strlit("2");
        reveal_strlit("3");
        reveal_strlit("4");
        reveal_strlit("5");
        assert("1"@[0] == '1' && "2"@[0] == '2' && "3"@[0] == '3' && "4"@[0] == '4' && "5"@[0]
            == '5');
        assert(v@[0].id@ == "1"@ && v@[1].id@ == "2"@ && v@[2].id@ == "3"@ && v@[3].id@ == "4"@
            && v@[4].id@ == "5"@);
        assert(unique_category_ids(v@)) by {
            assert forall|i: int, j: int| 0 <= i < j < v@.len() implies v@[i].id@
                != v@[j].id@ by {
                assert(v@[i].id@[0] != v@[j].id@[0]);
            }
        }
    }
    v
}

/// Builds a fresh vault: refuses when a document already exists, hashes the
/// master password, draws a random salt, and starts with the default
/// categories and no entries. The caller persists the result.
pub fn initialize_vault(master_password: &str, vault_exists: bool) -> (r: Result<
    PasswordVault,
    VaultError,
>)
    ensures
        vault_exists ==> r == Err::<PasswordVault, VaultError>(VaultError::AlreadyExists),
        !vault_exists && r is Err ==> r->Err_0 == VaultError::CryptoFailure,
        r is Ok ==> !vault_exists,
        r is Ok ==> ({
            let v = r->Ok_0;
            &&& v.passwords@.len() == 0
            &&& spec_default_categories(v.categories@)
            &&& hash_ok(v)
            &&& auth_ok(v, master_password@)
            &&& (exists|b: Seq<u8>| b.len() == 16 && v.salt@ == #[trigger] spec_hex_chars(b))
            &&& salt_ok(v)
            &&& v.wf()
        }),
{
    if vault_exists {
        return Err(VaultError::AlreadyExists);
    }
    let hashed = match hash_master_password(master_password) {
        Ok(h) => h,
        Err(e) => {
            return Err(e);
        },
    };
    let salt = random_bytes_16();
    let salt_hex = hex_encode(salt.as_slice());
    proof {
        lemma_hex_round_trip(salt@);
    }
    let categories = default_categories();
    let v = PasswordVault {
        master_password_hash: hashed,
        salt: salt_hex,
        passwords: Vec::new(),
        categories,
    };
    proof {
        assert(unique_entry_ids(v.passwords@));
    }
    Ok(v)
}

/// Checks the caller's master password against the vault's stored hash;
/// false on mismatch, an error only on a malformed stored hash.
pub fn verify_master_password(vault: &PasswordVault, master_password: &str) -> (r: Result<
    bool,
    VaultError,
>)
    ensures
        r == spec_verify_master_password(
            encode_utf8(master_password@),
            vault.master_password_hash@,
        ),
{
    crate::auth::verify_master_password(master_password, vault.master_password_hash.as_str())
}

/// Verifies the password and derives the vault's symmetric key.
fn unlock_key(vault: &PasswordVault, master_password: &str) -> (r: Result<Vec<u8>, VaultError>)
    ensures
        !hash_ok(*vault) ==> r == Err::<Vec<u8>, VaultError>(VaultError::CryptoFailure),
        hash_ok(*vault) && !auth_ok(*vault, master_password@) ==> r == Err::<
            Vec<u8>,
            VaultError,
        >(VaultError::AuthFailure),
        hash_ok(*vault) && auth_ok(*vault, master_password@) && !salt_ok(*vault) ==> r == Err::<
            Vec<u8>,
            VaultError,
        >(VaultError::Corrupt),
        hash_ok(*vault) && auth_ok(*vault, master_password@) && salt_ok(*vault) ==> r is Ok,
        r is Ok ==> hash_ok(*vault) && auth_ok(*vault, master_password@) && salt_ok(*vault)
            && r->Ok_0@ == vault_key(*vault, master_password@) && r->Ok_0@.len() == 32,
{
    let ok = match verify_master_password(vault, master_password) {
        Ok(b) => b,
        Err(e) => {
            return Err(e);
        },
    };
    if !ok {
        return Err(VaultError::AuthFailure);
    }
    let salt = match hex_decode(vault.salt.as_str()) {
        Some(s) => s,
        None => {
            return Err(VaultError::Corrupt);
        },
    };
    Ok(derive_key(master_password, salt.as_slice()))
}

/// Decrypts every stored entry under the caller's master password and
/// returns them in storage order. One undecryptable entry fails the whole
/// listing, and a wrong password never yields a partial result.
pub fn get_passwords(vault: &PasswordVault, master_password: &str) -> (r: Result<
    Vec<PasswordItem>,
    VaultError,
>)
    ensures
        !hash_ok(*vault) ==> r == Err::<Vec<PasswordItem>, VaultError>(VaultError::CryptoFailure),
        hash_ok(*vault) && !auth_ok(*vault, master_password@) ==> r == Err::<
            Vec<PasswordItem>,
            VaultError,
        >(VaultError::AuthFailure),
        hash_ok(*vault) && auth_ok(*vault, master_password@) && !salt_ok(*vault) ==> r == Err::<
            Vec<PasswordItem>,
            VaultError,
        >(VaultError::Corrupt),
        hash_ok(*vault) && auth_ok(*vault, master_password@) && salt_ok(*vault)
            && !all_entries_decrypt(vault.passwords@, vault_key(*vault, master_password@)) ==> r
            == Err::<Vec<PasswordItem>, VaultError>(VaultError::CryptoFailure),
        hash_ok(*vault) && auth_ok(*vault, master_password@) && salt_ok(*vault)
            && all_entries_decrypt(vault.passwords@, vault_key(*vault, master_password@)) ==> r
            is Ok,
        r is Ok ==> r->Ok_0@.len() == vault.passwords@.len() && (forall|i: int|
            0 <= i < vault.passwords@.len() ==> decrypts_to(
                #[trigger] vault.passwords@[i],
                r->Ok_0@[i],
                vault_key(*vault, master_password@),
            )),
{
    let key = match unlock_key(vault, master_password) {
        Ok(k) => k,
        Err(e) => {
            return Err(e);
        },
    };
    let mut out: Vec<PasswordItem> = Vec::new();
    let n = vault.passwords.len();
    for i in 0..n
        invariant
            n == vault.passwords@.len(),
            hash_ok(*vault),
            auth_ok(*vault, master_password@),
            salt_ok(*vault),
            key@ == vault_key(*vault, master_password@),
            key@.len() == 32,
            out@.len() == i,
            forall|k: int|
                0 <= k < i ==> decrypts_to(#[trigger] vault.passwords@[k], out@[k], key@),
    {
        let e = &vault.passwords[i];
        let plain = match decrypt_data(e.password.as_str(), key.as_slice()) {
            Ok(p) => p,
            Err(_) => {
                return Err(VaultError::CryptoFailure);
            },
        };
        out.push(
            PasswordItem {
                id: e.id.clone(),
                title: e.title.clone(),
                username: e.username.clone(),
                password: plain,
                url: e.url.clone(),
                notes: e.notes.clone(),
                category: e.category.clone(),
                created_at: e.created_at,
                updated_at: e.updated_at,
            },
        );
    }
    Ok(out)
}

/// Returns the categories as stored; no password is required.
pub fn get_categories(vault: &PasswordVault) -> (r: Vec<Category>)
    ensures
        r@ == vault.categories@,
{
    let mut out: Vec<Category> = Vec::new();
    let n = vault.categories.len();
    for i in 0..n
        invariant
            n == vault.categories@.len(),
            out@ =~= vault.categories@.take(i as int),
    {
        out.push(vault.categories[i].duplicate());
        proof {
            assert(out@ =~= vault.categories@.take(i + 1));
        }
    }
    proof {
        assert(out@ =~= vault.categories@);
    }
    out
}

/// Encrypts the new entry's secret, assigns a fresh unique id and the write
/// time, appends it to the vault, and returns the plaintext form of what
/// was stored. The caller persists the changed vault.
pub fn add_password(
    vault: &mut PasswordVault,
    password: CreatePasswordItem,
    master_password: &str,
    now_millis: u64,
    now_secs: u64,
) -> (r: Result<PasswordItem, VaultError>)
    requires
        old(vault).wf(),
    ensures
        r is Err ==> same_vault(*final(vault), *old(vault)),
        !hash_ok(*old(vault)) ==> r == Err::<PasswordItem, VaultError>(VaultError::CryptoFailure),
        hash_ok(*old(vault)) && !auth_ok(*old(vault), master_password@) ==> r == Err::<
            PasswordItem,
            VaultError,
        >(VaultError::AuthFailure),
        hash_ok(*old(vault)) && auth_ok(*old(vault), master_password@) && !salt_ok(*old(vault))
            ==> r == Err::<PasswordItem, VaultError>(VaultError::Corrupt),
        hash_ok(*old(vault)) && auth_ok(*old(vault), master_password@) && salt_ok(*old(vault))
            ==> r is Ok,
        r is Ok ==> ({
            let v = *final(vault);
            let key = vault_key(*old(vault), master_password@);
            let e = v.passwords@.last();
            let p = r->Ok_0;
            &&& v.passwords@.len() == old(vault).passwords@.len() + 1
            &&& v.passwords@.take(old(vault).passwords@.len() as int) == old(vault).passwords@
            &&& v.categories@ == old(vault).categories@
            &&& v.master_password_hash == old(vault).master_password_hash
            &&& v.salt == old(vault).salt
            &&& v.wf()
            &&& !entry_id_taken(old(vault).passwords@, e.id@)
            &&& e.id@.len() >= 1
            &&& encrypts_create(e, password, key, now_secs)
            &&& p.id@ == e.id@
            &&& p.title@ == password.title@
            &&& p.username@ == password.username@
            &&& p.password@ == password.password@
            &&& p.url@ == password.url@
            &&& p.notes@ == password.notes@
            &&& p.category@ == password.category@
            &&& p.created_at == now_secs
            &&& p.updated_at == now_secs
        }),
{
    let key = match unlock_key(vault, master_password) {
        Ok(k) => k,
        Err(e) => {
            return Err(e);
        },
    };
    let encrypted = match encrypt_data(password.password.as_str(), key.as_slice()) {
        Ok(s) => s,
        Err(_) => {
            return Err(VaultError::CryptoFailure);
        },
    };
    proof {
        let pw = password.password@;
        let iv = choose|iv: Seq<u8>|
            iv.len() == 16 && encrypted@ == #[trigger] spec_hex_chars(
                iv + spec_encrypt_blocks(key@, spec_pad(encode_utf8(pw))),
            );
        lemma_cipher_round_trip(pw, key@, iv);
    }
    let id = fresh_entry_id(&vault.passwords, now_millis);
    let entry = EncryptedPasswordItem {
        id: id.clone(),
        title: password.title.clone(),
        username: password.username.clone(),
        password: encrypted,
        url: password.url.clone(),
        notes: password.notes.clone(),
        category: password.category.clone(),
        created_at: now_secs,
        updated_at: now_secs,
    };
    let ghost olds = vault.passwords@;
    vault.passwords.push(entry);
    proof {
        assert(vault.passwords@.take(olds.len() as int) =~= olds);
        assert(unique_entry_ids(vault.passwords@)) by {
            assert forall|i: int, j: int|
                0 <= i < j < vault.passwords@.len() implies vault.passwords@[i].id@
                != vault.passwords@[j].id@ by {
                if j < olds.len() {
                    assert(olds[i].id@ != olds[j].id@);
                } else {
                    assert(!entry_id_taken(olds, vault.passwords@[j].id@));
                    assert(vault.passwords@[i] == olds[i]);
                }
            }
        }
    }
    Ok(
        PasswordItem {
            id,
            title: password.title,
            username: password.username,
            password: password.password,
            url: password.url,
            notes: password.notes,
            category: password.category,
            created_at: now_secs,
            updated_at: now_secs,
        },
    )
}

/// Re-encrypts the entry's secret and replaces the stored entry with the
/// same id in place, keeping its creation time and advancing its update
/// time. The caller persists the changed vault.
pub fn update_password(
    vault: &mut PasswordVault,
    password: PasswordItem,
    master_password: &str,
    now_secs: u64,
) -> (r: Result<PasswordItem, VaultError>)
    requires
        old(vault).wf(),
    ensures
        r is Err ==> same_vault(*final(vault), *old(vault)),
        !hash_ok(*old(vault)) ==> r == Err::<PasswordItem, VaultError>(VaultError::CryptoFailure),
        hash_ok(*old(vault)) && !auth_ok(*old(vault), master_password@) ==> r == Err::<
            PasswordItem,
            VaultError,
        >(VaultError::AuthFailure),
        hash_ok(*old(vault)) && auth_ok(*old(vault), master_password@) && !salt_ok(*old(vault))
            ==> r == Err::<PasswordItem, VaultError>(VaultError::Corrupt),
        hash_ok(*old(vault)) && auth_ok(*old(vault), master_password@) && salt_ok(*old(vault))
            && !entry_id_taken(old(vault).passwords@, password.id@) ==> r == Err::<
            PasswordItem,
            VaultError,
        >(VaultError::NotFound),
        hash_ok(*old(vault)) && auth_ok(*old(vault), master_password@) && salt_ok(*old(vault))
            && entry_id_taken(old(vault).passwords@, password.id@) ==> r is Ok,
        r is Ok ==> ({
            let v = *final(vault);
            let key = vault_key(*old(vault), master_password@);
            let p = r->Ok_0;
            &&& v.passwords@.len() == old(vault).passwords@.len()
            &&& v.categories@ == old(vault).categories@
            &&& v.master_password_hash == old(vault).master_password_hash
            &&& v.salt == old(vault).salt
            &&& v.wf()
            &&& (exists|i: int|
                {
                    &&& 0 <= i < old(vault).passwords@.len()
                    &&& #[trigger] old(vault).passwords@[i].id@ == password.id@
                    &&& (forall|k: int|
                        0 <= k < old(vault).passwords@.len() && k != i
                            ==> v.passwords@[k] == old(vault).passwords@[k])
                    &&& v.passwords@[i].id@ == password.id@
                    &&& v.passwords@[i].title@ == password.title@
                    &&& v.passwords@[i].username@ == password.username@
                    &&& spec_decrypt_data(v.passwords@[i].password@, key) == Ok::<
                        Seq<char>,
                        CipherError,
                    >(password.password@)
                    &&& v.passwords@[i].url@ == password.url@
                    &&& v.passwords@[i].notes@ == password.notes@
                    &&& v.passwords@[i].category@ == password.category@
                    &&& v.passwords@[i].created_at == old(vault).passwords@[i].created_at
                    &&& v.passwords@[i].updated_at == now_secs
                    &&& p.created_at == old(vault).passwords@[i].created_at
                })
            &&& p.id@ == password.id@
            &&& p.title@ == password.title@
            &&& p.username@ == password.username@
            &&& p.password@ == password.password@
            &&& p.url@ == password.url@
            &&& p.notes@ == password.notes@
            &&& p.category@ == password.category@
            &&& p.updated_at == now_secs
        }),
{
    let key = match unlock_key(vault, master_password) {
        Ok(k) => k,
        Err(e) => {
            return Err(e);
        },
    };
    let idx = match find_entry_index(&vault.passwords, &password.id) {
        Some(i) => i,
        None => {
            return Err(VaultError::NotFound);
        },
    };
    let encrypted = match encrypt_data(password.password.as_str(), key.as_slice()) {
        Ok(s) => s,
        Err(_) => {
            return Err(VaultError::CryptoFailure);
        },
    };
    proof {
        let pw = password.password@;
        let iv = choose|iv: Seq<u8>|
            iv.len() == 16 && encrypted@ == #[trigger] spec_hex_chars(
                iv + spec_encrypt_blocks(key@, spec_pad(encode_utf8(pw))),
            );
        lemma_cipher_round_trip(pw, key@, iv);
    }
    let created_at = vault.passwords[idx].created_at;
    let entry = EncryptedPasswordItem {
        id: password.id.clone(),
        title: password.title.clone(),
        username: password.username.clone(),
        password: encrypted,
        url: password.url.clone(),
        notes: password.notes.clone(),
        category: password.category.clone(),
        created_at,
        updated_at: now_secs,
    };
    let ghost olds = vault.passwords@;
    vault.passwords.remove(idx);
    vault.passwords.insert(idx, entry);
    proof {
        assert forall|k: int|
            0 <= k < olds.len() && k != idx implies vault.passwords@[k] == olds[k] by {
            assert(vault.passwords@ =~= olds.remove(idx as int).insert(idx as int, entry));
        }
        assert(unique_entry_ids(vault.passwords@)) by {
            assert forall|i: int, j: int|
                0 <= i < j < vault.passwords@.len() implies vault.passwords@[i].id@
                != vault.passwords@[j].id@ by {
                assert(vault.passwords@[i].id@ == olds[i].id@);
                assert(vault.passwords@[j].id@ == olds[j].id@);
            }
        }
    }
    Ok(
        PasswordItem {
            id: password.id,
            title: password.title,
            username: password.username,
            password: password.password,
            url: password.url,
            notes: password.notes,
            category: password.category,
            created_at,
            updated_at: now_secs,
        },
    )
}

/// Removes the entry with the given id; deletion reveals no secret, so no
/// master password is required. The caller persists the changed vault.
pub fn delete_password(vault: &mut PasswordVault, id: &str) -> (r: Result<bool, VaultError>)
    requires
        old(vault).wf(),
    ensures
        !entry_id_taken(old(vault).passwords@, id@) ==> r == Err::<bool, VaultError>(
            VaultError::NotFound,
        ) && same_vault(*final(vault), *old(vault)),
        entry_id_taken(old(vault).passwords@, id@) ==> r == Ok::<bool, VaultError>(true),
        r is Ok ==> ({
            let v = *final(vault);
            &&& v.categories@ == old(vault).categories@
            &&& v.master_password_hash == old(vault).master_password_hash
            &&& v.salt == old(vault).salt
            &&& v.wf()
            &&& v.passwords@.len() + 1 == old(vault).passwords@.len()
            &&& (exists|i: int|
                0 <= i < old(vault).passwords@.len() && #[trigger] old(
                    vault,
                ).passwords@[i].id@ == id@ && v.passwords@ == old(vault).passwords@.remove(i))
            &&& (forall|k: int| 0 <= k < v.passwords@.len() ==> v.passwords@[k].id@ != id@)
        }),
{
    let needle = id.to_owned();
    let idx = match find_entry_index(&vault.passwords, &needle) {
        Some(i) => i,
        None => {
            return Err(VaultError::NotFound);
        },
    };
    let ghost olds = vault.passwords@;
    vault.passwords.remove(idx);
    proof {
        assert forall|k: int| 0 <= k < vault.passwords@.len() implies vault.passwords@[k].id@
            != id@ by {
            if k < idx {
                assert(vault.passwords@[k] == olds[k]);
                if olds[k].id@ == id@ {
                    assert(olds[k].id@ == olds[idx as int].id@);
                }
            } else {
                assert(vault.passwords@[k] == olds[k + 1]);
                if olds[k + 1].id@ == id@ {
                    assert(olds[idx as int].id@ == olds[k + 1].id@);
                }
            }
        }
        assert(unique_entry_ids(vault.passwords@)) by {
            assert forall|i: int, j: int|
                0 <= i < j < vault.passwords@.len() implies vault.passwords@[i].id@
                != vault.passwords@[j].id@ by {
                if j < idx {
                    assert(vault.passwords@[i] == olds[i] && vault.passwords@[j] == olds[j]);
                } else if i < idx {
                    assert(vault.passwords@[i] == olds[i] && vault.passwords@[j] == olds[j + 1]);
                } else {
                    assert(vault.passwords@[i] == olds[i + 1] && vault.passwords@[j] == olds[j
                        + 1]);
                }
            }
        }
    }
    Ok(true)
}

/// Assigns a fresh unique id to the category, appends it, and returns the
/// stored form. The caller persists the changed vault.
pub fn add_category(vault: &mut PasswordVault, category: Category, now_millis: u64) -> (r:
    Category)
    requires
        old(vault).wf(),
    ensures
        ({
            let v = *final(vault);
            let c = v.categories@.last();
            &&& v.passwords@ == old(vault).passwords@
            &&& v.master_password_hash == old(vault).master_password_hash
            &&& v.salt == old(vault).salt
            &&& v.categories@.len() == old(vault).categories@.len() + 1
            &&& v.categories@.take(old(vault).categories@.len() as int) == old(vault).categories@
            &&& v.wf()
            &&& !category_id_taken(old(vault).categories@, c.id@)
            &&& c.id@.len() >= 1
            &&& c.name@ == category.name@
            &&& c.icon@ == category.icon@
            &&& r == c
        }),
{
    let id = fresh_category_id(&vault.categories, now_millis);
    let new_category = Category { id, name: category.name, icon: category.icon };
    let returned = new_category.duplicate();
    let ghost oldc = vault.categories@;
    vault.categories.push(new_category);
    proof {
        assert(vault.categories@.take(oldc.len() as int) =~= oldc);
        assert(unique_category_ids(vault.categories@)) by {
            assert forall|i: int, j: int|
                0 <= i < j < vault.categories@.len() implies vault.categories@[i].id@
                != vault.categories@[j].id@ by {
                if j < oldc.len() {
                    assert(oldc[i].id@ != oldc[j].id@);
                } else {
                    assert(!category_id_taken(oldc, vault.categories@[j].id@));
                    assert(vault.categories@[i] == oldc[i]);
                }
            }
        }
    }
    returned
}

/// Replaces the category with the given id in place. The caller persists
/// the changed vault.
pub fn update_category(vault: &mut PasswordVault, category: Category) -> (r: Result<
    Category,
    VaultError,
>)
    requires
        old(vault).wf(),
    ensures
        r is Err ==> same_vault(*final(vault), *old(vault)),
        !category_id_taken(old(vault).categories@, category.id@) <==> r == Err::<
            Category,
            VaultError,
        >(VaultError::NotFound),
        category_id_taken(old(vault).categories@, category.id@) ==> r is Ok,
        r is Ok ==> ({
            let v = *final(vault);
            let c = r->Ok_0;
            &&& v.passwords@ == old(vault).passwords@
            &&& v.master_password_hash == old(vault).master_password_hash
            &&& v.salt == old(vault).salt
            &&& v.categories@.len() == old(vault).categories@.len()
            &&& v.wf()
            &&& (exists|i: int|
                {
                    &&& 0 <= i < old(vault).categories@.len()
                    &&& #[trigger] old(vault).categories@[i].id@ == category.id@
                    &&& (forall|k: int|
                        0 <= k < old(vault).categories@.len() && k != i
                            ==> v.categories@[k] == old(vault).categories@[k])
                    &&& v.categories@[i].id@ == category.id@
                    &&& v.categories@[i].name@ == category.name@
                    &&& v.categories@[i].icon@ == category.icon@
                })
            &&& c.id@ == category.id@
            &&& c.name@ == category.name@
            &&& c.icon@ == category.icon@
        }),
{
    let idx = match find_category_index(&vault.categories, &category.id) {
        Some(i) => i,
        None => {
            return Err(VaultError::NotFound);
        },
    };
    let stored = category.duplicate();
    let ghost oldc = vault.categories@;
    vault.categories.remove(idx);
    vault.categories.insert(idx, stored);
    proof {
        assert forall|k: int|
            0 <= k < oldc.len() && k != idx implies vault.categories@[k] == oldc[k] by {
            assert(vault.categories@ =~= oldc.remove(idx as int).insert(idx as int, category));
        }
        assert(unique_category_ids(vault.categories@)) by {
            assert forall|i: int, j: int|
                0 <= i < j < vault.categories@.len() implies vault.categories@[i].id@
                != vault.categories@[j].id@ by {
                assert(vault.categories@[i].id@ == oldc[i].id@);
                assert(vault.categories@[j].id@ == oldc[j].id@);
            }
        }
    }
    Ok(category)
}

/// Removes the category with the given id; entries that refer to it by name
/// keep their dangling name. The caller persists the changed vault.
pub fn delete_category(vault: &mut PasswordVault, id: &str) -> (r: Result<bool, VaultError>)
    requires
        old(vault).wf(),
    ensures
        !category_id_taken(old(vault).categories@, id@) ==> r == Err::<bool, VaultError>(
            VaultError::NotFound,
        ) && same_vault(*final(vault), *old(vault)),
        category_id_taken(old(vault).categories@, id@) ==> r == Ok::<bool, VaultError>(true),
        r is Ok ==> ({
            let v = *final(vault);
            &&& v.passwords@ == old(vault).passwords@
            &&& v.master_password_hash == old(vault).master_password_hash
            &&& v.salt == old(vault).salt
            &&& v.wf()
            &&& v.categories@.len() + 1 == old(vault).categories@.len()
            &&& (exists|i: int|
                0 <= i < old(vault).categories@.len() && #[trigger] old(
                    vault,
                ).categories@[i].id@ == id@ && v.categories@ == old(vault).categories@.remove(i))
            &&& (forall|k: int| 0 <= k < v.categories@.len() ==> v.categories@[k].id@ != id@)
        }),
{
    let needle = id.to_owned();
    let idx = match find_category_index(&vault.categories, &needle) {
        Some(i) => i,
        None => {
            return Err(VaultError::NotFound);
        },
    };
    let ghost oldc = vault.categories@;
    vault.categories.remove(idx);
    proof {
        assert forall|k: int| 0 <= k < vault.categories@.len() implies vault.categories@[k].id@
            != id@ by {
            if k < idx {
                assert(vault.categories@[k] == oldc[k]);
                if oldc[k].id@ == id@ {
                    assert(oldc[k].id@ == oldc[idx as int].id@);
                }
            } else {
                assert(vault.categories@[k] == oldc[k + 1]);
                if oldc[k + 1].id@ == id@ {
                    assert(oldc[idx as int].id@ == oldc[k + 1].id@);
                }
            }
        }
        assert(unique_category_ids(vault.categories@)) by {
            assert forall|i: int, j: int|
                0 <= i < j < vault.categories@.len() implies vault.categories@[i].id@
                != vault.categories@[j].id@ by {
                if j < idx {
                    assert(vault.categories@[i] == oldc[i] && vault.categories@[j] == oldc[j]);
                } else if i < idx {
                    assert(vault.categories@[i] == oldc[i] && vault.categories@[j] == oldc[j + 1]);
                } else {
                    assert(vault.categories@[i] == oldc[i + 1] && vault.categories@[j] == oldc[j
                        + 1]);
                }
            }
        }
    }
    Ok(true)
}

} // verus!
