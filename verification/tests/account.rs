use launcher_core::account::{
    add_account, add_account_to_manager, check_account_request, delete_account,
    get_account_list, get_current_account, init_account_manager, is_valid_name,
    register_account, set_current_account, set_current_account_at, Account, AccountManager,
    AccountType,
};

#[test]
fn test_add_and_get_account() {
    let mut manager = init_account_manager();

    let result = add_account(
        &mut manager,
        "TestPlayer".to_string(),
        "offline".to_string(),
        None,
        None,
    );
    assert!(result.is_ok());

    let list = get_account_list(&manager).unwrap();
    assert_eq!(list.len(), 1);
    assert_eq!(list[0].name, "TestPlayer");
}

#[test]
fn test_offline_account_uuid() {
    let _manager = init_account_manager();

    let account = Account::new("Notch".to_string(), AccountType::Offline, None, None);

    assert_eq!(account.info.uuid, "0a6bfc7c-05e5-3c8a-9584-264834746b71");
}

#[test]
fn offline_account_uuid_depends_on_name_only() {
    let account = Account::new("Notch".to_string(), AccountType::Offline, None, None);
    let again = Account::new(
        "Notch".to_string(),
        AccountType::Offline,
        Some("token".to_string()),
        None,
    );
    assert_eq!(again.info.uuid, account.info.uuid);
    let other = Account::new("TestPlayer".to_string(), AccountType::Offline, None, None);
    assert_eq!(other.info.uuid, "ee617ae0-580b-3d79-95ea-5c08249f1258");
    assert_eq!(other.info.uuid.as_bytes()[14], b'3');
}

#[test]
fn new_account_holds_what_was_given() {
    let account = Account::new(
        "Alex".to_string(),
        AccountType::Microsoft,
        Some("access".to_string()),
        Some("refresh".to_string()),
    );
    assert_eq!(account.info.name, "Alex");
    assert_eq!(account.info.account_type, AccountType::Microsoft);
    assert_eq!(account.info.last_login_time, None);
    assert_eq!(account.access_token, Some("access".to_string()));
    assert_eq!(account.refresh_token, Some("refresh".to_string()));
    assert_eq!(account.info.uuid.len(), 36);
    assert_eq!(account.info.uuid.as_bytes()[14], b'4');
    assert!(account.info.create_time.contains('T'));
    let copy = account.clone();
    assert_eq!(copy.info.uuid, account.info.uuid);
    assert_eq!(copy.access_token, account.access_token);
}

#[test]
fn online_accounts_get_different_uuids() {
    let a = Account::new("Alex".to_string(), AccountType::Microsoft, None, None);
    let b = Account::new("Alex".to_string(), AccountType::Microsoft, None, None);
    assert_ne!(a.info.uuid, b.info.uuid);
}

#[test]
fn account_with_identity_and_last_login() {
    let mut account = Account::with_identity(
        "Alex".to_string(),
        AccountType::Offline,
        "id-1".to_string(),
        "2026-02-27T12:34:56+08:00".to_string(),
        None,
        Some("r".to_string()),
    );
    assert_eq!(account.info.uuid, "id-1");
    assert_eq!(account.info.create_time, "2026-02-27T12:34:56+08:00");
    assert_eq!(account.info.last_login_time, None);
    account.set_last_login("2026-03-01T00:00:00+00:00".to_string());
    assert_eq!(account.info.last_login_time, Some("2026-03-01T00:00:00+00:00".to_string()));
    account.update_last_login();
    let time = account.info.last_login_time.clone().unwrap();
    assert_ne!(time, "2026-03-01T00:00:00+00:00");
    assert_eq!(account.info.name, "Alex");
    assert_eq!(account.refresh_token, Some("r".to_string()));
}

#[test]
fn names_hold_letters_digits_and_underscore() {
    assert!(is_valid_name("Steve_01"));
    assert!(is_valid_name(""));
    assert!(is_valid_name("azAZ09_"));
    assert!(!is_valid_name("Steve 01"));
    assert!(!is_valid_name("Stéve"));
    assert!(!is_valid_name("a-b"));
    assert!(!is_valid_name("`"));
    assert!(!is_valid_name("{"));
    assert!(!is_valid_name("["));
    assert!(!is_valid_name("@"));
    assert!(!is_valid_name("/"));
    assert!(!is_valid_name(":"));
}

fn check(name: &str, kind: &str, access: Option<&str>, refresh: Option<&str>) -> Result<AccountType, String> {
    check_account_request(
        &name.to_string(),
        &kind.to_string(),
        &access.map(|t| t.to_string()),
        &refresh.map(|t| t.to_string()),
    )
}

#[test]
fn request_rules_are_checked_in_order() {
    assert_eq!(check("", "nothing", None, None), Err("用户名不能为空".to_string()));
    assert_eq!(
        check("a b", "nothing", None, None),
        Err("用户名 'a b' 包含非法字符，仅允许字母、数字、下划线".to_string())
    );
    assert_eq!(check("ab", "nothing", None, None), Err("不支持的账户类型: nothing".to_string()));
    assert_eq!(check("ab", "Offline", None, None), Err("不支持的账户类型: Offline".to_string()));
    assert_eq!(
        check("ab", "microsoft", None, None),
        Err("微软账户必须提供 access_token".to_string())
    );
    assert_eq!(
        check("ab", "microsoft", None, Some("r")),
        Err("微软账户必须提供 access_token".to_string())
    );
    assert_eq!(
        check("ab", "microsoft", Some("a"), None),
        Err("微软账户必须提供 refresh_token".to_string())
    );
    assert_eq!(check("ab", "microsoft", Some("a"), Some("r")), Ok(AccountType::Microsoft));
    assert_eq!(check("ab", "offline", None, None), Ok(AccountType::Offline));
    assert_eq!(check("ab", "offline", Some("a"), None), Ok(AccountType::Offline));
}

#[test]
fn add_account_answers_with_uuid() {
    let mut manager = init_account_manager();
    let answer = add_account(&mut manager, "Notch".to_string(), "offline".to_string(), None, None);
    assert_eq!(
        answer,
        Ok("账户创建成功，UUID: 0a6bfc7c-05e5-3c8a-9584-264834746b71".to_string())
    );
    let list = get_account_list(&manager).unwrap();
    assert_eq!(list.len(), 1);
    assert_eq!(list[0].uuid, "0a6bfc7c-05e5-3c8a-9584-264834746b71");
    assert_eq!(list[0].account_type, AccountType::Offline);
    assert_eq!(list[0].last_login_time, None);
}

#[test]
fn add_account_refuses_known_uuid() {
    let mut manager = init_account_manager();
    add_account(&mut manager, "Notch".to_string(), "offline".to_string(), None, None).unwrap();
    let answer = add_account(&mut manager, "Notch".to_string(), "offline".to_string(), None, None);
    assert_eq!(
        answer,
        Err("账户 0a6bfc7c-05e5-3c8a-9584-264834746b71 已存在".to_string())
    );
    assert_eq!(get_account_list(&manager).unwrap().len(), 1);
}

#[test]
fn add_account_refuses_bad_request_and_changes_nothing() {
    let mut manager = init_account_manager();
    let answer = add_account(&mut manager, "".to_string(), "offline".to_string(), None, None);
    assert_eq!(answer, Err("用户名不能为空".to_string()));
    let answer = add_account(&mut manager, "a!".to_string(), "offline".to_string(), None, None);
    assert_eq!(answer, Err("用户名 'a!' 包含非法字符，仅允许字母、数字、下划线".to_string()));
    let answer = add_account(&mut manager, "ab".to_string(), "guest".to_string(), None, None);
    assert_eq!(answer, Err("不支持的账户类型: guest".to_string()));
    let answer = add_account(&mut manager, "ab".to_string(), "microsoft".to_string(), None, None);
    assert_eq!(answer, Err("微软账户必须提供 access_token".to_string()));
    assert_eq!(get_account_list(&manager).unwrap().len(), 0);
}

#[test]
fn add_online_account() {
    let mut manager = init_account_manager();
    let answer = add_account(
        &mut manager,
        "Alex".to_string(),
        "microsoft".to_string(),
        Some("a".to_string()),
        Some("r".to_string()),
    )
    .unwrap();
    let list = get_account_list(&manager).unwrap();
    assert_eq!(list.len(), 1);
    assert_eq!(list[0].account_type, AccountType::Microsoft);
    assert_eq!(answer, format!("账户创建成功，UUID: {}", list[0].uuid));
}

fn account(name: &str, uuid: &str) -> Account {
    Account::with_identity(
        name.to_string(),
        AccountType::Offline,
        uuid.to_string(),
        "2026-02-27T12:34:56+08:00".to_string(),
        None,
        None,
    )
}

#[test]
fn manager_keeps_accounts_in_order_of_arrival() {
    let mut manager = AccountManager::default();
    assert_eq!(add_account_to_manager(&mut manager, account("A", "1")), Ok(()));
    assert_eq!(add_account_to_manager(&mut manager, account("B", "2")), Ok(()));
    assert_eq!(
        add_account_to_manager(&mut manager, account("C", "1")),
        Err("账户 1 已存在".to_string())
    );
    assert_eq!(
        register_account(&mut manager, account("D", "4")),
        Ok("账户创建成功，UUID: 4".to_string())
    );
    assert_eq!(
        register_account(&mut manager, account("E", "2")),
        Err("账户 2 已存在".to_string())
    );
    let names: Vec<String> = get_account_list(&manager)
        .unwrap()
        .into_iter()
        .map(|info| info.name)
        .collect();
    assert_eq!(names, vec!["A", "B", "D"]);
}

#[test]
fn current_account_is_chosen_and_stamped() {
    let mut manager = init_account_manager();
    add_account_to_manager(&mut manager, account("A", "1")).unwrap();
    add_account_to_manager(&mut manager, account("B", "2")).unwrap();
    assert!(get_current_account(&manager).unwrap().is_none());
    assert_eq!(
        set_current_account_at(&mut manager, "3", "t0".to_string()),
        Err("账户 3 不存在".to_string())
    );
    assert!(get_current_account(&manager).unwrap().is_none());
    assert_eq!(set_current_account_at(&mut manager, "2", "t1".to_string()), Ok(()));
    let current = get_current_account(&manager).unwrap().unwrap();
    assert_eq!(current.name, "B");
    assert_eq!(current.last_login_time, Some("t1".to_string()));
    let list = get_account_list(&manager).unwrap();
    assert_eq!(list[0].name, "A");
    assert_eq!(list[0].last_login_time, None);
    assert_eq!(list[1].name, "B");
    assert_eq!(set_current_account(&mut manager, "1"), Ok(()));
    let current = get_current_account(&manager).unwrap().unwrap();
    assert_eq!(current.name, "A");
    assert!(current.last_login_time.is_some());
    assert_eq!(set_current_account(&mut manager, "9"), Err("账户 9 不存在".to_string()));
}

#[test]
fn deleting_current_account_clears_choice() {
    let mut manager = init_account_manager();
    add_account_to_manager(&mut manager, account("A", "1")).unwrap();
    add_account_to_manager(&mut manager, account("B", "2")).unwrap();
    add_account_to_manager(&mut manager, account("C", "3")).unwrap();
    set_current_account_at(&mut manager, "2", "t".to_string()).unwrap();
    assert_eq!(delete_account(&mut manager, "9".to_string()), Err("账户 9 不存在".to_string()));
    assert_eq!(delete_account(&mut manager, "1".to_string()), Ok("账户 1 删除成功".to_string()));
    assert_eq!(get_current_account(&manager).unwrap().unwrap().name, "B");
    assert_eq!(delete_account(&mut manager, "2".to_string()), Ok("账户 2 删除成功".to_string()));
    assert!(get_current_account(&manager).unwrap().is_none());
    let list = get_account_list(&manager).unwrap();
    assert_eq!(list.len(), 1);
    assert_eq!(list[0].name, "C");
    assert_eq!(add_account_to_manager(&mut manager, account("B", "2")), Ok(()));
    assert!(get_current_account(&manager).unwrap().is_none());
}
