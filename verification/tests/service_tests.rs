use password_vault::errors::VaultError;
use password_vault::service::{
    add_category, add_password, delete_category, delete_password, get_categories, get_passwords,
    initialize_vault, update_category, update_password, verify_master_password,
};
use password_vault::vault::{get_vault, Category, CreatePasswordItem, PasswordVault};

fn new_vault(master_password: &str) -> PasswordVault {
    initialize_vault(master_password, false).unwrap()
}

fn bank_entry() -> CreatePasswordItem {
    CreatePasswordItem {
        title: "Bank".to_string(),
        username: "alice".to_string(),
        password: "p@ss".to_string(),
        url: "".to_string(),
        notes: "".to_string(),
        category: "金融".to_string(),
    }
}

#[test]
fn initialize_refuses_existing_vault() {
    assert_eq!(
        initialize_vault("Secret123", true).unwrap_err(),
        VaultError::AlreadyExists
    );
}

#[test]
fn initialize_creates_default_vault() {
    let vault = new_vault("Secret123");
    assert_eq!(vault.passwords.len(), 0);
    let cats = get_categories(&vault);
    assert_eq!(cats.len(), 5);
    let names: Vec<&str> = cats.iter().map(|c| c.name.as_str()).collect();
    assert_eq!(names, ["所有", "个人", "工作", "金融", "社交媒体"]);
    let ids: Vec<&str> = cats.iter().map(|c| c.id.as_str()).collect();
    assert_eq!(ids, ["1", "2", "3", "4", "5"]);
    assert_eq!(vault.salt.len(), 32);
    assert_eq!(verify_master_password(&vault, "Secret123"), Ok(true));
    assert_eq!(verify_master_password(&vault, "WrongPassword"), Ok(false));
}

#[test]
fn add_and_list_round_trip() {
    let mut vault = new_vault("Secret123");
    let item = add_password(&mut vault, bank_entry(), "Secret123", 1700000000123, 1700000000)
        .unwrap();
    assert!(!item.id.is_empty());
    assert_eq!(item.created_at, item.updated_at);
    assert_eq!(item.password, "p@ss");
    assert_eq!(vault.passwords.len(), 1);
    // the stored secret is ciphertext, not the plaintext
    assert_ne!(vault.passwords[0].password, "p@ss");
    let listed = get_passwords(&vault, "Secret123").unwrap();
    assert_eq!(listed.len(), 1);
    assert_eq!(listed[0].id, item.id);
    assert_eq!(listed[0].title, "Bank");
    assert_eq!(listed[0].username, "alice");
    assert_eq!(listed[0].password, "p@ss");
    assert_eq!(listed[0].category, "金融");
}

#[test]
fn wrong_password_fails_listing() {
    let mut vault = new_vault("Secret123");
    add_password(&mut vault, bank_entry(), "Secret123", 1700000000123, 1700000000).unwrap();
    assert_eq!(
        get_passwords(&vault, "WrongPassword").unwrap_err(),
        VaultError::AuthFailure
    );
    assert_eq!(
        add_password(&mut vault, bank_entry(), "WrongPassword", 1, 1).unwrap_err(),
        VaultError::AuthFailure
    );
}

#[test]
fn update_preserves_created_at_and_advances_updated_at() {
    let mut vault = new_vault("Secret123");
    let item = add_password(&mut vault, bank_entry(), "Secret123", 1700000000123, 1700000000)
        .unwrap();
    let mut changed = item;
    changed.password = "n3w-p@ss".to_string();
    let updated = update_password(&mut vault, changed, "Secret123", 1700000500).unwrap();
    assert_eq!(updated.created_at, 1700000000);
    assert_eq!(updated.updated_at, 1700000500);
    let listed = get_passwords(&vault, "Secret123").unwrap();
    assert_eq!(listed.len(), 1);
    assert_eq!(listed[0].password, "n3w-p@ss");
    assert_eq!(listed[0].created_at, 1700000000);
    assert_eq!(listed[0].updated_at, 1700000500);
}

#[test]
fn update_missing_entry_is_not_found() {
    let mut vault = new_vault("Secret123");
    let item = add_password(&mut vault, bank_entry(), "Secret123", 1700000000123, 1700000000)
        .unwrap();
    let mut ghost_entry = item;
    ghost_entry.id = "no-such-id".to_string();
    assert_eq!(
        update_password(&mut vault, ghost_entry, "Secret123", 1700000500).unwrap_err(),
        VaultError::NotFound
    );
}

#[test]
fn add_assigns_unique_ids_even_with_equal_timestamps() {
    let mut vault = new_vault("Secret123");
    let a = add_password(&mut vault, bank_entry(), "Secret123", 42, 100).unwrap();
    let b = add_password(&mut vault, bank_entry(), "Secret123", 42, 100).unwrap();
    let c = add_password(&mut vault, bank_entry(), "Secret123", 42, 100).unwrap();
    assert_eq!(vault.passwords.len(), 3);
    assert_ne!(a.id, b.id);
    assert_ne!(a.id, c.id);
    assert_ne!(b.id, c.id);
}

#[test]
fn delete_removes_only_that_entry() {
    let mut vault = new_vault("Secret123");
    let a = add_password(&mut vault, bank_entry(), "Secret123", 1, 10).unwrap();
    let mut second = bank_entry();
    second.title = "Mail".to_string();
    let b = add_password(&mut vault, second, "Secret123", 2, 20).unwrap();
    assert_eq!(delete_password(&mut vault, &a.id), Ok(true));
    assert_eq!(vault.passwords.len(), 1);
    assert_eq!(vault.passwords[0].id, b.id);
    assert_eq!(vault.passwords[0].title, "Mail");
    assert_eq!(
        delete_password(&mut vault, &a.id).unwrap_err(),
        VaultError::NotFound
    );
}

#[test]
fn failed_mutation_leaves_vault_unchanged() {
    let mut vault = new_vault("Secret123");
    let item = add_password(&mut vault, bank_entry(), "Secret123", 1, 10).unwrap();
    let stored_before = vault.passwords[0].password.clone();
    let mut changed = item;
    changed.password = "other".to_string();
    assert_eq!(
        update_password(&mut vault, changed, "WrongPassword", 999).unwrap_err(),
        VaultError::AuthFailure
    );
    assert_eq!(vault.passwords.len(), 1);
    assert_eq!(vault.passwords[0].password, stored_before);
    assert_eq!(vault.passwords[0].updated_at, 10);
}

#[test]
fn delete_keeps_order_of_remainder() {
    let mut vault = new_vault("Secret123");
    let mut ids = Vec::new();
    for (i, title) in ["One", "Two", "Three"].iter().enumerate() {
        let mut e = bank_entry();
        e.title = title.to_string();
        ids.push(add_password(&mut vault, e, "Secret123", i as u64, 10).unwrap().id);
    }
    assert_eq!(delete_password(&mut vault, &ids[1]), Ok(true));
    let titles: Vec<&str> = vault.passwords.iter().map(|p| p.title.as_str()).collect();
    assert_eq!(titles, ["One", "Three"]);
    let left: Vec<&str> = vault.passwords.iter().map(|p| p.id.as_str()).collect();
    assert_eq!(left, [ids[0].as_str(), ids[2].as_str()]);
}

#[test]
fn category_crud() {
    let mut vault = new_vault("Secret123");
    let added = add_category(
        &mut vault,
        Category {
            id: "ignored".to_string(),
            name: "备用".to_string(),
            icon: "🗂".to_string(),
        },
        1700000000999,
    );
    assert_eq!(vault.categories.len(), 6);
    assert_eq!(added.name, "备用");
    assert_ne!(added.id, "ignored");
    for c in &vault.categories[..5] {
        assert_ne!(c.id, added.id);
    }

    let renamed = update_category(
        &mut vault,
        Category {
            id: added.id.clone(),
            name: "档案".to_string(),
            icon: "🗃".to_string(),
        },
    )
    .unwrap();
    assert_eq!(renamed.name, "档案");
    assert_eq!(vault.categories[5].name, "档案");

    assert_eq!(
        update_category(
            &mut vault,
            Category {
                id: "no-such-id".to_string(),
                name: "x".to_string(),
                icon: "y".to_string(),
            },
        )
        .unwrap_err(),
        VaultError::NotFound
    );

    assert_eq!(delete_category(&mut vault, &added.id), Ok(true));
    assert_eq!(vault.categories.len(), 5);
    assert_eq!(
        delete_category(&mut vault, &added.id).unwrap_err(),
        VaultError::NotFound
    );
}

#[test]
fn get_vault_returns_cache_only_when_present() {
    assert!(get_vault(&None).is_none());
    let vault = new_vault("Secret123");
    let cached = get_vault(&Some(vault)).unwrap();
    assert_eq!(cached.categories.len(), 5);
    assert_eq!(verify_master_password(&cached, "Secret123"), Ok(true));
}
