use authcore::accounts::Directory;
use authcore::flows::AuthError;
use authcore::ids::u64_to_dec;
use authcore::status::{code_of, BAD_REQUEST, UNAUTH};

#[test]
fn test_u64_to_dec_values() {
    assert_eq!(u64_to_dec(0), "0");
    assert_eq!(u64_to_dec(7), "7");
    assert_eq!(u64_to_dec(9), "9");
    assert_eq!(u64_to_dec(10), "10");
    assert_eq!(u64_to_dec(12345), "12345");
    assert_eq!(u64_to_dec(1000000), "1000000");
    assert_eq!(u64_to_dec(u64::MAX), "18446744073709551615");
}

fn filled() -> Directory {
    let mut d = Directory::new();
    for (name, mail) in [
        ("lomect", "1@qq.com"),
        ("lomect", "2@qq.com"),
        ("zoe", "3@qq.com"),
        ("lomect", "4@qq.com"),
        ("ada", "5@qq.com"),
    ] {
        d.insert(
            name.to_string(),
            mail.to_string(),
            "unused-hash".to_string(),
            "157".to_string(),
            7,
        );
    }
    d
}

#[test]
fn test_insert_assigns_decimal_ids() {
    let d = filled();
    assert_eq!(d.len(), 5);
    for i in 0..5 {
        assert_eq!(d.account(i).id, i.to_string());
    }
}

#[test]
fn test_find_by_email_and_id() {
    let d = filled();
    assert_eq!(d.find_by_email("3@qq.com"), Some(2));
    assert_eq!(d.find_by_email("9@qq.com"), None);
    assert_eq!(d.find_by_id("4"), Some(4));
    assert_eq!(d.find_by_id("5"), None);
}

#[test]
fn test_set_active_touches_one_account() {
    let mut d = filled();
    assert!(!d.account(1).active);
    assert!(d.set_active("1"));
    assert!(d.account(1).active);
    assert!(!d.account(0).active);
    assert!(!d.account(2).active);
    assert!(!d.set_active("99"));
}

#[test]
fn test_set_password_stamps_update() {
    let mut d = filled();
    assert!(d.set_password("2", "new-hash".to_string(), 55));
    assert_eq!(d.account(2).password, "new-hash");
    assert_eq!(d.account(2).update_at, Some(55));
    assert_eq!(d.account(1).password, "unused-hash");
    assert!(!d.set_password("99", "x".to_string(), 55));
}

#[test]
fn test_page_users_pages_and_filters() {
    let d = filled();
    let page1 = d.page_users(None, 2, 1);
    assert_eq!(page1.len(), 2);
    assert_eq!(page1[0].email, "1@qq.com");
    assert_eq!(page1[1].email, "2@qq.com");
    let page2 = d.page_users(None, 2, 2);
    assert_eq!(page2.len(), 2);
    assert_eq!(page2[0].email, "3@qq.com");
    let page3 = d.page_users(None, 2, 3);
    assert_eq!(page3.len(), 1);
    assert_eq!(page3[0].email, "5@qq.com");
    assert_eq!(d.page_users(None, 2, 4).len(), 0);

    let name = "lomect".to_string();
    let named = d.page_users(Some(&name), 10, 1);
    assert_eq!(named.len(), 3);
    assert_eq!(named[0].email, "1@qq.com");
    assert_eq!(named[1].email, "2@qq.com");
    assert_eq!(named[2].email, "4@qq.com");
    assert_eq!(named[0].username, "lomect");
    assert_eq!(named[0].phone, "157");
    assert_eq!(named[0].create_at, 7);
    let second = d.page_users(Some(&name), 2, 2);
    assert_eq!(second.len(), 1);
    assert_eq!(second[0].email, "4@qq.com");
}

#[test]
fn test_code_of_flow_errors() {
    assert_eq!(code_of(AuthError::Unauthorized), UNAUTH);
    assert_eq!(code_of(AuthError::NotFound), BAD_REQUEST);
    assert_eq!(code_of(AuthError::AlreadyRegistered), BAD_REQUEST);
    assert_eq!(code_of(AuthError::DuplicateSend), BAD_REQUEST);
}
