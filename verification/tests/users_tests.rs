use codegraph::users::{is_valid_email, process_users, User, UserService};

#[test]
fn test_user_creation() {
    let user = User::new(1, "Test".to_string(), "test@example.com".to_string());
    assert_eq!(user.id, 1);
    assert_eq!(user.name, "Test");
}

#[test]
fn test_email_validation() {
    assert!(is_valid_email("test@example.com"));
    assert!(!is_valid_email("invalid-email"));
}

#[test]
fn test_user_service() {
    let mut service = UserService::new();
    let user = service.create_user("Test".to_string(), "test@example.com".to_string());

    assert_eq!(user.id, 1);
    assert!(service.get_user(1).is_some());
    assert!(service.delete_user(1));
    assert!(service.get_user(1).is_none());
}

#[test]
fn test_with_age_and_adult() {
    let user = User::new(2, "Kid".to_string(), "kid@x.org".to_string());
    assert!(!user.is_adult());
    let grown = user.with_age(18);
    assert!(grown.is_adult());
    let almost = User::new(3, "Teen".to_string(), "t@x.org".to_string()).with_age(17);
    assert!(!almost.is_adult());
}

#[test]
fn test_display_name() {
    let user = User::new(7, "Alice".to_string(), "a@b.c".to_string());
    assert_eq!(user.get_display_name(), "Alice (ID: 7)");
}

#[test]
fn test_validate() {
    let ok = User::new(1, "A".to_string(), "a@b.c".to_string());
    assert!(ok.validate().is_ok());
    let unnamed = User::new(2, "".to_string(), "a@b.c".to_string());
    assert_eq!(unnamed.validate().unwrap_err(), "Name cannot be empty");
    let bad_mail = User::new(3, "B".to_string(), "nope".to_string());
    assert_eq!(bad_mail.validate().unwrap_err(), "Invalid email format");
}

#[test]
fn test_update_and_find() {
    let mut service = UserService::new();
    service.create_user("Alice".to_string(), "alice@example.com".to_string());
    service.create_user("Bob".to_string(), "bob@example.com".to_string());
    let updated = service
        .update_user(1, Some("Alice Smith".to_string()), None)
        .expect("user 1 exists");
    assert_eq!(updated.name, "Alice Smith");
    assert_eq!(updated.email, "alice@example.com");
    assert!(service.update_user(99, None, None).is_none());

    let found = service.find_users_by_name("ALICE");
    assert_eq!(found.len(), 1);
    assert_eq!(found[0].name, "Alice Smith");
    let all = service.get_all_users();
    assert_eq!(all.len(), 2);
    assert_eq!(all[0].name, "Alice Smith");
    assert_eq!(all[1].name, "Bob");
}

#[test]
fn test_process_users() {
    let users = vec![
        User::new(1, "A".to_string(), "a@b.c".to_string()).with_age(20),
        User::new(2, "B".to_string(), "b@b.c".to_string()).with_age(10),
        User::new(3, "C".to_string(), "c@b.c".to_string()).with_age(65),
    ];
    let names = process_users(users);
    assert_eq!(names, vec!["A (ID: 1)".to_string(), "C (ID: 3)".to_string()]);
}

#[test]
fn test_display_name_large_id() {
    let user = User::new(4294967295, "Max".to_string(), "m@x.io".to_string());
    assert_eq!(user.get_display_name(), "Max (ID: 4294967295)");
}

#[test]
fn test_create_filter_fn() {
    let at_least_21 = codegraph::users::create_filter_fn(21);
    let young = User::new(1, "Y".to_string(), "y@x.c".to_string()).with_age(20);
    let grown = User::new(2, "O".to_string(), "o@x.c".to_string()).with_age(21);
    let unknown = User::new(3, "U".to_string(), "u@x.c".to_string());
    assert!(!at_least_21(&young));
    assert!(at_least_21(&grown));
    assert!(!at_least_21(&unknown));
}

#[test]
fn test_listing_skips_deleted_users() {
    let mut service = UserService::new();
    service.create_user("A".to_string(), "a@b.c".to_string());
    service.create_user("B".to_string(), "b@b.c".to_string());
    assert!(service.delete_user(1));
    let all = service.get_all_users();
    assert_eq!(all.len(), 1);
    assert_eq!(all[0].name, "B");
}
