use gh_actions::{User, UserManager};
fn create_test_user(id: u32) -> User {
    User {
        id,
        name: format!("Test User {}", id),
        email: format!("test{}@example.com", id),
        active: true,
    }
}

#[test]
fn test_new_user_manager() {
    let manager = UserManager::new();
    assert_eq!(manager.count(), 0);
    assert!(manager.get_users().is_empty());
}

#[test]
fn test_default_user_manager() {
    let manager = UserManager::default();
    assert_eq!(manager.count(), 0);
}

#[test]
fn test_add_user_success() {
    let mut manager = UserManager::new();
    let user = create_test_user(1);
    
    assert!(manager.add_user(user.clone()).is_ok());
    assert_eq!(manager.count(), 1);
    assert_eq!(manager.get_user(1), Some(&user));
}

#[test]
fn test_add_duplicate_user() {
    let mut manager = UserManager::new();
    let user = create_test_user(1);
    
    manager.add_user(user.clone()).unwrap();
    let result = manager.add_user(user);
    
    assert!(result.is_err());
    assert_eq!(manager.count(), 1);
    assert!(result.unwrap_err().contains("already exists"));
}

#[test]
fn test_add_user_empty_name() {
    let mut manager = UserManager::new();
    let user = User {
        id: 1,
        name: "".to_string(),
        email: "test@example.com".to_string(),
        active: true,
    };
    
    let result = manager.add_user(user);
    assert!(result.is_err());
    assert!(result.unwrap_err().contains("name cannot be empty"));
}

#[test]
fn test_add_user_invalid_email() {
    let mut manager = UserManager::new();
    let user = User {
        id: 1,
        name: "Test User".to_string(),
        email: "invalid-email".to_string(),
        active: true,
    };
    
    let result = manager.add_user(user);
    assert!(result.is_err());
    assert!(result.unwrap_err().contains("Invalid email"));
}

#[test]
fn test_get_user() {
    let mut manager = UserManager::new();
    let user = create_test_user(1);
    manager.add_user(user.clone()).unwrap();
    
    assert_eq!(manager.get_user(1), Some(&user));
    assert_eq!(manager.get_user(999), None);
}

#[test]
fn test_update_user() {
    let mut manager = UserManager::new();
    let user = create_test_user(1);
    manager.add_user(user).unwrap();
    
    let updated_user = User {
        id: 1,
        name: "Updated User".to_string(),
        email: "updated@example.com".to_string(),
        active: false,
    };
    
    assert!(manager.update_user(1, updated_user.clone()).is_ok());
    assert_eq!(manager.get_user(1), Some(&updated_user));
}

#[test]
fn test_update_nonexistent_user() {
    let mut manager = UserManager::new();
    let user = create_test_user(1);
    
    let result = manager.update_user(999, user);
    assert!(result.is_err());
    assert!(result.unwrap_err().contains("not found"));
}

#[test]
fn test_delete_user() {
    let mut manager = UserManager::new();
    let user = create_test_user(1);
    manager.add_user(user).unwrap();
    
    assert!(manager.delete_user(1).is_ok());
    assert_eq!(manager.count(), 0);
    assert_eq!(manager.get_user(1), None);
}

#[test]
fn test_delete_nonexistent_user() {
    let mut manager = UserManager::new();
    let result = manager.delete_user(999);
    
    assert!(result.is_err());
    assert!(result.unwrap_err().contains("not found"));
}

#[test]
fn test_get_active_users() {
    let mut manager = UserManager::new();
    
    let active_user = User {
        id: 1,
        name: "Active User".to_string(),
        email: "active@example.com".to_string(),
        active: true,
    };
    
    let inactive_user = User {
        id: 2,
        name: "Inactive User".to_string(),
        email: "inactive@example.com".to_string(),
        active: false,
    };
    
    manager.add_user(active_user.clone()).unwrap();
    manager.add_user(inactive_user).unwrap();
    
    let active_users = manager.get_active_users();
    assert_eq!(active_users.len(), 1);
    assert_eq!(active_users[0], &active_user);
}

#[test]
fn test_get_inactive_users() {
    let mut manager = UserManager::new();
    
    let active_user = User {
        id: 1,
        name: "Active User".to_string(),
        email: "active@example.com".to_string(),
        active: true,
    };
    
    let inactive_user = User {
        id: 2,
        name: "Inactive User".to_string(),
        email: "inactive@example.com".to_string(),
        active: false,
    };
    
    manager.add_user(active_user).unwrap();
    manager.add_user(inactive_user.clone()).unwrap();
    
    let inactive_users = manager.get_inactive_users();
    assert_eq!(inactive_users.len(), 1);
    assert_eq!(inactive_users[0], &inactive_user);
}

#[test]
fn test_activate_user() {
    let mut manager = UserManager::new();
    let mut user = create_test_user(1);
    user.active = false;
    manager.add_user(user).unwrap();
    
    assert!(manager.activate_user(1).is_ok());
    assert!(manager.get_user(1).unwrap().active);
}

#[test]
fn test_deactivate_user() {
    let mut manager = UserManager::new();
    let user = create_test_user(1);
    manager.add_user(user).unwrap();
    
    assert!(manager.deactivate_user(1).is_ok());
    assert!(!manager.get_user(1).unwrap().active);
}

#[test]
fn test_clear() {
    let mut manager = UserManager::new();
    manager.add_user(create_test_user(1)).unwrap();
    manager.add_user(create_test_user(2)).unwrap();
    
    assert_eq!(manager.count(), 2);
    manager.clear();
    assert_eq!(manager.count(), 0);
}

#[test]
fn error_messages_name_the_id() {
    let mut manager = UserManager::new();
    manager.add_user(create_test_user(1234)).unwrap();
    assert_eq!(
        manager.add_user(create_test_user(1234)).unwrap_err(),
        "User with ID 1234 already exists"
    );
    assert_eq!(manager.delete_user(7).unwrap_err(), "User with ID 7 not found");
    assert_eq!(manager.activate_user(0).unwrap_err(), "User with ID 0 not found");
    assert_eq!(
        manager.update_user(4294967295, create_test_user(1)).unwrap_err(),
        "User with ID 4294967295 not found"
    );
}

#[test]
fn blank_name_is_refused_before_email() {
    let mut manager = UserManager::new();
    let user = User {
        id: 1,
        name: " \t\u{3000}".to_string(),
        email: "bad".to_string(),
        active: true,
    };
    assert_eq!(manager.add_user(user.clone()).unwrap_err(), "User name cannot be empty");
    assert_eq!(manager.update_user(1, user).unwrap_err(), "User name cannot be empty");
    assert_eq!(manager.count(), 0);
}

#[test]
fn update_checks_profile_before_id() {
    let mut manager = UserManager::new();
    let mut bad = create_test_user(5);
    bad.email = "nope".to_string();
    assert_eq!(manager.update_user(5, bad).unwrap_err(), "Invalid email format");
}

#[test]
fn set_users_replaces_everything() {
    let mut manager = UserManager::new();
    manager.add_user(create_test_user(1)).unwrap();
    manager.set_users(vec![create_test_user(2), create_test_user(3)]);
    assert_eq!(manager.count(), 2);
    assert!(manager.get_user(1).is_none());
    assert_eq!(manager.get_user(3), Some(&create_test_user(3)));
}
