//! Player accounts: what an account holds, the rules a new account has to
//! meet, and the list of accounts with the one that is current.

use vstd::prelude::*;
use vstd::string::StringExecFns;
use crate::text::{clone_text, text_of};

verus! {

/// The kind of an account.
#[derive(Debug, Clone, Copy, PartialEq, Eq, Structural)]
pub enum AccountType {
    Microsoft,
    Offline,
}

/// What is shown of an account.
#[derive(Debug)]
pub struct AccountInfo {
    pub name: String,
    pub account_type: AccountType,
    pub uuid: String,
    /// When the account was made, as an RFC 3339 time.
    pub create_time: String,
    /// When the account was last made the current one.
    pub last_login_time: Option<String>,
}

/// An account with its tokens.
#[derive(Debug)]
pub struct Account {
    pub info: AccountInfo,
    pub access_token: Option<String>,
    pub refresh_token: Option<String>,
}

/// An [`AccountInfo`] as mathematical values.
pub struct AccountInfoView {
    pub name: Seq<char>,
    pub account_type: AccountType,
    pub uuid: Seq<char>,
    pub create_time: Seq<char>,
    pub last_login_time: Option<Seq<char>>,
}

/// An [`Account`] as mathematical values.
pub struct AccountView {
    pub info: AccountInfoView,
    pub access_token: Option<Seq<char>>,
    pub refresh_token: Option<Seq<char>>,
}

impl View for AccountInfo {
    type V = AccountInfoView;

    open spec fn view(&self) -> AccountInfoView {
        AccountInfoView {
            name: self.name@,
            account_type: self.account_type,
            uuid: self.uuid@,
            create_time: self.create_time@,
            last_login_time: text_of(self.last_login_time),
        }
    }
}

impl View for Account {
    type V = AccountView;

    open spec fn view(&self) -> AccountView {
        AccountView {
            info: self.info@,
            access_token: text_of(self.access_token),
            refresh_token: text_of(self.refresh_token),
        }
    }
}

impl Clone for AccountInfo {
    fn clone(&self) -> (copy: Self)
        ensures
            copy@ == self@,
    {
        AccountInfo {
            name: self.name.clone(),
            account_type: self.account_type,
            uuid: self.uuid.clone(),
            create_time: self.create_time.clone(),
            last_login_time: clone_text(&self.last_login_time),
        }
    }
}

impl Clone for Account {
    fn clone(&self) -> (copy: Self)
        ensures
            copy@ == self@,
    {
        Account {
            info: self.info.clone(),
            access_token: clone_text(&self.access_token),
            refresh_token: clone_text(&self.refresh_token),
        }
    }
}

/// The text of the name-based identifier that the MD5 hash gives for a
/// name in a namespace.
pub uninterp spec fn md5_uuid_text(namespace: u128, name: Seq<char>) -> Seq<char>;

/// The identifier of the given name in the given namespace, as text.
///
/// Trusted: this is `Uuid::new_v3` of the `uuid` crate, which hashes the
/// bytes of the namespace and of the name with MD5 and so gives the same
/// identifier for the same two, written by `to_string` in the hyphenated
/// lower-case form.
#[verifier::external_body]
fn uuid_v3_text(namespace: u128, name: &str) -> (text: String)
    ensures
        text@ == md5_uuid_text(namespace, name@),
{
    uuid::Uuid::new_v3(&uuid::Uuid::from_u128(namespace), name.as_bytes()).to_string()
}

/// A random identifier, as text.
///
/// Trusted: this is `Uuid::new_v4` of the `uuid` crate. It draws from the
/// random source of the operating system, so nothing is stated of the
/// result; where the system has no such source, the call does not return.
#[verifier::external_body]
fn random_uuid_text() -> (text: String) {
    uuid::Uuid::new_v4().to_string()
}

/// The local time, as an RFC 3339 text.
///
/// Trusted: this is `Local::now` of the `chrono` crate, written by
/// `to_rfc3339`. It reads the clock, so nothing is stated of the result;
/// with a clock set before 1970 the call does not return.
#[verifier::external_body]
fn local_time_text() -> (text: String) {
    chrono::Local::now().to_rfc3339()
}

/// The namespace of the identifiers of offline accounts.
pub const OFFLINE_NAMESPACE: u128 = 0;

/// The name that is hashed for the identifier of an offline account.
pub open spec fn offline_player(name: Seq<char>) -> Seq<char> {
    "OfflinePlayer:"@ + name
}

impl Account {
    /// An account made of the given parts, never logged in.
    pub fn with_identity(
        name: String,
        account_type: AccountType,
        uuid: String,
        create_time: String,
        access_token: Option<String>,
        refresh_token: Option<String>,
    ) -> (account: Self)
        ensures
            account.info.name == name,
            account.info.account_type == account_type,
            account.info.uuid == uuid,
            account.info.create_time == create_time,
            account.info.last_login_time is None,
            account.access_token == access_token,
            account.refresh_token == refresh_token,
    {
        Account {
            info: AccountInfo { name, account_type, uuid, create_time, last_login_time: None },
            access_token,
            refresh_token,
        }
    }

    /// A new account, made now. An offline account gets the identifier that
    /// its name gives, an online account a random one.
    pub fn new(
        name: String,
        account_type: AccountType,
        access_token: Option<String>,
        refresh_token: Option<String>,
    ) -> (account: Self)
        ensures
            account.info.name == name,
            account.info.account_type == account_type,
            account_type == AccountType::Offline ==> account.info.uuid@ == md5_uuid_text(
                OFFLINE_NAMESPACE,
                offline_player(name@),
            ),
            account.info.last_login_time is None,
            account.access_token == access_token,
            account.refresh_token == refresh_token,
    {
        let uuid = match account_type {
            AccountType::Microsoft => random_uuid_text(),
            AccountType::Offline => {
                let mut input = String::from_str("OfflinePlayer:");
                input.append(name.as_str());
                uuid_v3_text(OFFLINE_NAMESPACE, input.as_str())
            },
        };
        let create_time = local_time_text();
        Account::with_identity(name, account_type, uuid, create_time, access_token, refresh_token)
    }

    /// Records `time` as the time of the last login.
    pub fn set_last_login(&mut self, time: String)
        ensures
            final(self).info.last_login_time == Some(time),
            final(self).info.name == old(self).info.name,
            final(self).info.account_type == old(self).info.account_type,
            final(self).info.uuid == old(self).info.uuid,
            final(self).info.create_time == old(self).info.create_time,
            final(self).access_token == old(self).access_token,
            final(self).refresh_token == old(self).refresh_token,
    {
        self.info.last_login_time = Some(time);
    }

    /// Records the present time as the time of the last login.
    pub fn update_last_login(&mut self)
        ensures
            final(self).info.last_login_time is Some,
            final(self).info.name == old(self).info.name,
            final(self).info.account_type == old(self).info.account_type,
            final(self).info.uuid == old(self).info.uuid,
            final(self).info.create_time == old(self).info.create_time,
            final(self).access_token == old(self).access_token,
            final(self).refresh_token == old(self).refresh_token,
    {
        self.set_last_login(local_time_text());
    }
}

/// A character that a user name may hold: an ASCII letter or digit, or `_`.
pub open spec fn is_name_char(c: char) -> bool {
    ('a' <= c && c <= 'z') || ('A' <= c && c <= 'Z') || ('0' <= c && c <= '9') || c == '_'
}

/// Every character of `name` may stand in a user name.
pub open spec fn is_plain_name(name: Seq<char>) -> bool {
    forall|i: int| 0 <= i < name.len() ==> is_name_char(#[trigger] name[i])
}

/// The kind of account that a word names.
pub open spec fn account_type_of(word: Seq<char>) -> Option<AccountType> {
    if word == "microsoft"@ {
        Some(AccountType::Microsoft)
    } else if word == "offline"@ {
        Some(AccountType::Offline)
    } else {
        None
    }
}

/// What a request for a new account is answered with before an account is
/// made: the kind of the account, or the message of the first rule that the
/// request breaks.
pub open spec fn request_verdict(
    name: Seq<char>,
    account_type: Seq<char>,
    has_access_token: bool,
    has_refresh_token: bool,
) -> Result<AccountType, Seq<char>> {
    if name.len() == 0 {
        Err("用户名不能为空"@)
    } else if !is_plain_name(name) {
        Err("用户名 '"@ + name + "' 包含非法字符，仅允许字母、数字、下划线"@)
    } else {
        match account_type_of(account_type) {
            None => Err("不支持的账户类型: "@ + account_type),
            Some(AccountType::Microsoft) => {
                if !has_access_token {
                    Err("微软账户必须提供 access_token"@)
                } else if !has_refresh_token {
                    Err("微软账户必须提供 refresh_token"@)
                } else {
                    Ok(AccountType::Microsoft)
                }
            },
            Some(AccountType::Offline) => Ok(AccountType::Offline),
        }
    }
}

/// Whether every character of `name` may stand in a user name.
pub fn is_valid_name(name: &str) -> (valid: bool)
    ensures
        valid == is_plain_name(name@),
{
    broadcast use vstd::string::group_string_axioms;

    let mut valid = true;
    for c in it: name.chars()
        invariant
            it.seq() == name@,
            valid == is_plain_name(name@.take(it.index() as int)),
    {
        let ghost k = it.index() as int;
        let fits = ('a' <= c && c <= 'z') || ('A' <= c && c <= 'Z') || ('0' <= c && c <= '9') || c
            == '_';
        proof {
            let before = name@.take(k);
            let after = name@.take(k + 1);
            assert(after[k] == c);
            if valid && fits {
                assert forall|i: int| 0 <= i < after.len() implies is_name_char(
                    #[trigger] after[i],
                ) by {
                    if i < k {
                        assert(after[i] == before[i]);
                    }
                }
            }
            if !valid {
                let i = choose|i: int| 0 <= i < before.len() && !is_name_char(before[i]);
                assert(after[i] == before[i]);
            }
        }
        valid = valid && fits;
    }
    assert(name@.take(name@.len() as int) =~= name@);
    valid
}

/// Checks a request for a new account against the rules: the name is not
/// empty and holds only letters, digits and `_`; the kind is `microsoft` or
/// `offline`; an online account comes with both tokens.
pub fn check_account_request(
    name: &String,
    account_type: &String,
    access_token: &Option<String>,
    refresh_token: &Option<String>,
) -> (r: Result<AccountType, String>)
    ensures
        match request_verdict(
            name@,
            account_type@,
            access_token is Some,
            refresh_token is Some,
        ) {
            Ok(kind) => r == Ok::<AccountType, String>(kind),
            Err(message) => r matches Err(m) && m@ == message,
        },
{
    if name.as_str().unicode_len() == 0 {
        return Err(String::from_str("用户名不能为空"));
    }
    if !is_valid_name(name.as_str()) {
        let mut message = String::from_str("用户名 '");
        message.append(name.as_str());
        message.append("' 包含非法字符，仅允许字母、数字、下划线");
        return Err(message);
    }
    let kind = if *account_type == String::from_str("microsoft") {
        AccountType::Microsoft
    } else if *account_type == String::from_str("offline") {
        AccountType::Offline
    } else {
        let mut message = String::from_str("不支持的账户类型: ");
        message.append(account_type.as_str());
        return Err(message);
    };
    match kind {
        AccountType::Microsoft => {
            if access_token.is_none() {
                return Err(String::from_str("微软账户必须提供 access_token"));
            }
            if refresh_token.is_none() {
                return Err(String::from_str("微软账户必须提供 refresh_token"));
            }
        },
        AccountType::Offline => {},
    }
    Ok(kind)
}

/// The accounts that are known and the identifier of the current one.
/// No two accounts share an identifier.
#[derive(Debug)]
pub struct AccountManager {
    accounts: Vec<Account>,
    current_uuid: Option<String>,
}

/// An [`AccountManager`] as mathematical values.
pub struct AccountManagerView {
    /// The accounts, in the order in which they were added.
    pub accounts: Seq<AccountView>,
    pub current_uuid: Option<Seq<char>>,
}

/// The views of a sequence of accounts.
pub open spec fn accounts_view(accounts: Seq<Account>) -> Seq<AccountView> {
    Seq::new(accounts.len(), |i: int| accounts[i]@)
}

/// The views of a sequence of account infos.
pub open spec fn infos_view(infos: Seq<AccountInfo>) -> Seq<AccountInfoView> {
    Seq::new(infos.len(), |i: int| infos[i]@)
}

/// What is shown of each of the accounts.
pub open spec fn infos_of(accounts: Seq<AccountView>) -> Seq<AccountInfoView> {
    Seq::new(accounts.len(), |i: int| accounts[i].info)
}

/// The index of the first account from `from` on with the identifier
/// `uuid`, or the number of accounts if there is none.
pub open spec fn find_uuid(accounts: Seq<AccountView>, uuid: Seq<char>, from: int) -> int
    decreases accounts.len() - from,
{
    if !(0 <= from < accounts.len()) {
        accounts.len() as int
    } else if accounts[from].info.uuid == uuid {
        from
    } else {
        find_uuid(accounts, uuid, from + 1)
    }
}

/// An account with the identifier `uuid` is known.
pub open spec fn has_uuid(accounts: Seq<AccountView>, uuid: Seq<char>) -> bool {
    find_uuid(accounts, uuid, 0) < accounts.len()
}

/// No two accounts share an identifier.
pub open spec fn uuids_distinct(accounts: Seq<AccountView>) -> bool {
    forall|i: int, j: int|
        0 <= i < j < accounts.len() ==> accounts[i].info.uuid != accounts[j].info.uuid
}

/// What `find_uuid` returns is the first place of the identifier, if it has
/// one.
pub proof fn lemma_find_uuid(accounts: Seq<AccountView>, uuid: Seq<char>, from: int)
    requires
        0 <= from <= accounts.len(),
    ensures
        from <= find_uuid(accounts, uuid, from) <= accounts.len(),
        find_uuid(accounts, uuid, from) < accounts.len() ==> accounts[find_uuid(
            accounts,
            uuid,
            from,
        )].info.uuid == uuid,
        forall|j: int|
            from <= j < find_uuid(accounts, uuid, from) ==> (#[trigger] accounts[j]).info.uuid
                != uuid,
    decreases accounts.len() - from,
{
    if from < accounts.len() && accounts[from].info.uuid != uuid {
        lemma_find_uuid(accounts, uuid, from + 1);
    }
}

/// The manager after `account` was offered to it, and the answer: an
/// account whose identifier is known already is refused, any other is added
/// at the end.
pub open spec fn offered(before: AccountManagerView, account: AccountView) -> (
    AccountManagerView,
    Result<(), Seq<char>>,
) {
    if has_uuid(before.accounts, account.info.uuid) {
        (before, Err("账户 "@ + account.info.uuid + " 已存在"@))
    } else {
        (
            AccountManagerView {
                accounts: before.accounts.push(account),
                current_uuid: before.current_uuid,
            },
            Ok(()),
        )
    }
}

/// An account with the time of its last login set.
pub open spec fn logged_in(account: AccountView, time: Seq<char>) -> AccountView {
    AccountView {
        info: AccountInfoView { last_login_time: Some(time), ..account.info },
        ..account
    }
}

/// The manager after the account `uuid` was chosen at the given time: a
/// known account becomes the current one and gets the time as that of its
/// last login.
pub open spec fn chosen(before: AccountManagerView, uuid: Seq<char>, time: Seq<char>) -> (
    AccountManagerView,
    Result<(), Seq<char>>,
) {
    let at = find_uuid(before.accounts, uuid, 0);
    if at < before.accounts.len() {
        (
            AccountManagerView {
                accounts: before.accounts.update(at, logged_in(before.accounts[at], time)),
                current_uuid: Some(uuid),
            },
            Ok(()),
        )
    } else {
        (before, Err("账户 "@ + uuid + " 不存在"@))
    }
}

/// The manager after the account `uuid` was deleted, and the answer: a
/// known account leaves, and with it the choice of the current account if
/// it was the one.
pub open spec fn deleted(before: AccountManagerView, uuid: Seq<char>) -> (
    AccountManagerView,
    Result<Seq<char>, Seq<char>>,
) {
    let at = find_uuid(before.accounts, uuid, 0);
    if at < before.accounts.len() {
        (
            AccountManagerView {
                accounts: before.accounts.remove(at),
                current_uuid: if before.current_uuid == Some(uuid) {
                    None
                } else {
                    before.current_uuid
                },
            },
            Ok("账户 "@ + uuid + " 删除成功"@),
        )
    } else {
        (before, Err("账户 "@ + uuid + " 不存在"@))
    }
}

/// What is shown of the current account, if one is chosen and known.
pub open spec fn current_info(manager: AccountManagerView) -> Option<AccountInfoView> {
    match manager.current_uuid {
        Some(uuid) => {
            let at = find_uuid(manager.accounts, uuid, 0);
            if at < manager.accounts.len() {
                Some(manager.accounts[at].info)
            } else {
                None
            }
        },
        None => None,
    }
}

/// `account` is one that a request with these parts may lead to.
pub open spec fn answers_request(
    account: AccountView,
    name: Seq<char>,
    kind: AccountType,
    access_token: Option<Seq<char>>,
    refresh_token: Option<Seq<char>>,
) -> bool {
    &&& account.info.name == name
    &&& account.info.account_type == kind
    &&& kind == AccountType::Offline ==> account.info.uuid == md5_uuid_text(
        OFFLINE_NAMESPACE,
        offline_player(name),
    )
    &&& account.info.last_login_time is None
    &&& account.access_token == access_token
    &&& account.refresh_token == refresh_token
}

/// The answer to a request that led to `account`.
pub open spec fn request_answer(before: AccountManagerView, account: AccountView) -> Result<
    Seq<char>,
    Seq<char>,
> {
    match offered(before, account).1 {
        Ok(_) => Ok("账户创建成功，UUID: "@ + account.info.uuid),
        Err(message) => Err(message),
    }
}

impl View for AccountManager {
    type V = AccountManagerView;

    closed spec fn view(&self) -> AccountManagerView {
        AccountManagerView {
            accounts: accounts_view(self.accounts@),
            current_uuid: text_of(self.current_uuid),
        }
    }
}

impl AccountManager {
    /// No two accounts share an identifier.
    pub open spec fn wf(&self) -> bool {
        uuids_distinct(self@.accounts)
    }

    /// The index of the first account with the identifier `uuid`, or the
    /// number of accounts.
    fn find(&self, uuid: &String) -> (at: usize)
        ensures
            at == find_uuid(self@.accounts, uuid@, 0),
            at <= self.accounts.len(),
    {
        let ghost accounts = self@.accounts;
        let mut i: usize = 0;
        while i < self.accounts.len()
            invariant
                i <= self.accounts.len(),
                accounts == accounts_view(self.accounts@),
                find_uuid(accounts, uuid@, 0) == find_uuid(accounts, uuid@, i as int),
            decreases self.accounts.len() - i,
        {
            if self.accounts[i].info.uuid == *uuid {
                return i;
            }
            i += 1;
        }
        i
    }
}

impl Default for AccountManager {
    fn default() -> (manager: Self)
        ensures
            manager@.accounts.len() == 0,
            manager@.current_uuid is None,
            manager.wf(),
    {
        AccountManager { accounts: Vec::new(), current_uuid: None }
    }
}

/// A manager that knows no account.
pub fn init_account_manager() -> (manager: AccountManager)
    ensures
        manager@.accounts.len() == 0,
        manager@.current_uuid is None,
        manager.wf(),
{
    AccountManager::default()
}

/// Adds `account` unless its identifier is known already.
pub fn add_account_to_manager(manager: &mut AccountManager, account: Account) -> (r: Result<
    (),
    String,
>)
    ensures
        final(manager)@ == offered(old(manager)@, account@).0,
        match offered(old(manager)@, account@).1 {
            Ok(_) => r is Ok,
            Err(message) => r matches Err(m) && m@ == message,
        },
        old(manager).wf() ==> final(manager).wf(),
{
    let at = manager.find(&account.info.uuid);
    if at < manager.accounts.len() {
        let mut message = String::from_str("账户 ");
        message.append(account.info.uuid.as_str());
        message.append(" 已存在");
        return Err(message);
    }
    proof {
        let before = manager@.accounts;
        let after = before.push(account@);
        lemma_find_uuid(before, account@.info.uuid, 0);
        assert(accounts_view(manager.accounts@.push(account)) =~= after);
        if uuids_distinct(before) {
            assert forall|i: int, j: int| 0 <= i < j < after.len() implies after[i].info.uuid
                != after[j].info.uuid by {
                assert(after[i] == before[i]);
                if j < before.len() {
                    assert(after[j] == before[j]);
                }
            }
        }
    }
    manager.accounts.push(account);
    Ok(())
}

/// Makes the account `uuid` the current one and records `time` as the time
/// of its last login.
pub fn set_current_account_at(manager: &mut AccountManager, uuid: &str, time: String) -> (r:
    Result<(), String>)
    ensures
        final(manager)@ == chosen(old(manager)@, uuid@, time@).0,
        match chosen(old(manager)@, uuid@, time@).1 {
            Ok(_) => r is Ok,
            Err(message) => r matches Err(m) && m@ == message,
        },
        old(manager).wf() ==> final(manager).wf(),
{
    let wanted = String::from_str(uuid);
    let at = manager.find(&wanted);
    if at >= manager.accounts.len() {
        let mut message = String::from_str("账户 ");
        message.append(uuid);
        message.append(" 不存在");
        return Err(message);
    }
    let ghost before = manager@.accounts;
    let mut account = manager.accounts.remove(at);
    account.set_last_login(time);
    proof {
        let after = before.update(at as int, logged_in(before[at as int], time@));
        assert(account@ == logged_in(before[at as int], time@));
        assert(accounts_view(manager.accounts@.insert(at as int, account)) =~= after);
        if uuids_distinct(before) {
            assert forall|i: int, j: int| 0 <= i < j < after.len() implies after[i].info.uuid
                != after[j].info.uuid by {
                assert(after[i].info.uuid == before[i].info.uuid);
                assert(after[j].info.uuid == before[j].info.uuid);
            }
        }
    }
    manager.accounts.insert(at, account);
    manager.current_uuid = Some(wanted);
    Ok(())
}

/// Makes the account `uuid` the current one and records the present time as
/// the time of its last login.
pub fn set_current_account(manager: &mut AccountManager, uuid: &str) -> (r: Result<(), String>)
    ensures
        exists|time: Seq<char>|
            {
                &&& final(manager)@ == chosen(old(manager)@, uuid@, time).0
                &&& match #[trigger] chosen(old(manager)@, uuid@, time).1 {
                    Ok(_) => r is Ok,
                    Err(message) => r matches Err(m) && m@ == message,
                }
            },
        old(manager).wf() ==> final(manager).wf(),
{
    let time = local_time_text();
    let ghost stamp = time@;
    let r = set_current_account_at(manager, uuid, time);
    assert(final(manager)@ == chosen(old(manager)@, uuid@, stamp).0);
    r
}

/// What is shown of each account, in the order in which they were added.
pub fn get_account_list(manager: &AccountManager) -> (r: Result<Vec<AccountInfo>, String>)
    ensures
        r matches Ok(list) && infos_view(list@) == infos_of(manager@.accounts),
{
    let mut list: Vec<AccountInfo> = Vec::new();
    for i in 0..manager.accounts.len()
        invariant
            infos_view(list@) == infos_of(manager@.accounts).take(i as int),
    {
        let info = manager.accounts[i].info.clone();
        proof {
            let all = infos_of(manager@.accounts);
            assert(manager@.accounts[i as int] == manager.accounts@[i as int]@);
            assert(all[i as int] == info@);
            assert(all.take(i + 1) =~= all.take(i as int).push(all[i as int]));
            assert(infos_view(list@.push(info)) =~= infos_view(list@).push(info@));
        }
        list.push(info);
    }
    proof {
        let all = infos_of(manager@.accounts);
        assert(all.take(all.len() as int) =~= all);
    }
    Ok(list)
}

/// What is shown of the current account, if one is chosen and known.
pub fn get_current_account(manager: &AccountManager) -> (r: Result<Option<AccountInfo>, String>)
    ensures
        r matches Ok(found) && (match found {
            Some(info) => current_info(manager@) == Some(info@),
            None => current_info(manager@) is None,
        }),
{
    match &manager.current_uuid {
        Some(uuid) => {
            let at = manager.find(uuid);
            if at < manager.accounts.len() {
                Ok(Some(manager.accounts[at].info.clone()))
            } else {
                Ok(None)
            }
        },
        None => Ok(None),
    }
}

/// Deletes the account `uuid`. If it was the current one, none is current
/// afterwards.
pub fn delete_account(manager: &mut AccountManager, uuid: String) -> (r: Result<String, String>)
    ensures
        final(manager)@ == deleted(old(manager)@, uuid@).0,
        match deleted(old(manager)@, uuid@).1 {
            Ok(message) => r matches Ok(m) && m@ == message,
            Err(message) => r matches Err(m) && m@ == message,
        },
        old(manager).wf() ==> final(manager).wf(),
{
    let at = manager.find(&uuid);
    if at >= manager.accounts.len() {
        let mut message = String::from_str("账户 ");
        message.append(uuid.as_str());
        message.append(" 不存在");
        return Err(message);
    }
    let ghost before = manager@.accounts;
    proof {
        let after = before.remove(at as int);
        assert(accounts_view(manager.accounts@.remove(at as int)) =~= after);
        if uuids_distinct(before) {
            assert forall|i: int, j: int| 0 <= i < j < after.len() implies after[i].info.uuid
                != after[j].info.uuid by {
                let a = if i < at { i } else { i + 1 };
                let b = if j < at { j } else { j + 1 };
                assert(after[i] == before[a]);
                assert(after[j] == before[b]);
            }
        }
    }
    manager.accounts.remove(at);
    let is_current = match &manager.current_uuid {
        Some(current) => *current == uuid,
        None => false,
    };
    if is_current {
        manager.current_uuid = None;
    }
    let mut message = String::from_str("账户 ");
    message.append(uuid.as_str());
    message.append(" 删除成功");
    Ok(message)
}

/// Adds `account`, which a request led to, and answers the request.
pub fn register_account(manager: &mut AccountManager, account: Account) -> (r: Result<
    String,
    String,
>)
    ensures
        final(manager)@ == offered(old(manager)@, account@).0,
        match request_answer(old(manager)@, account@) {
            Ok(message) => r matches Ok(m) && m@ == message,
            Err(message) => r matches Err(m) && m@ == message,
        },
        old(manager).wf() ==> final(manager).wf(),
{
    let uuid = account.info.uuid.clone();
    match add_account_to_manager(manager, account) {
        Ok(_) => {
            let mut message = String::from_str("账户创建成功，UUID: ");
            message.append(uuid.as_str());
            Ok(message)
        },
        Err(message) => Err(message),
    }
}

/// Answers a request for a new account. A request that breaks a rule is
/// refused with that rule's message and changes nothing. Otherwise an
/// account is made of the request and offered to the manager.
pub fn add_account(
    manager: &mut AccountManager,
    name: String,
    account_type: String,
    access_token: Option<String>,
    refresh_token: Option<String>,
) -> (r: Result<String, String>)
    ensures
        match request_verdict(
            name@,
            account_type@,
            access_token is Some,
            refresh_token is Some,
        ) {
            Err(message) => {
                &&& r matches Err(m)
                &&& m@ == message
                &&& final(manager)@ == old(manager)@
            },
            Ok(kind) => exists|account: AccountView|
                {
                    &&& answers_request(
                        account,
                        name@,
                        kind,
                        text_of(access_token),
                        text_of(refresh_token),
                    )
                    &&& final(manager)@ == offered(old(manager)@, account).0
                    &&& match #[trigger] request_answer(old(manager)@, account) {
                        Ok(message) => r matches Ok(m) && m@ == message,
                        Err(message) => r matches Err(m) && m@ == message,
                    }
                },
        },
        old(manager).wf() ==> final(manager).wf(),
{
    let kind = match check_account_request(&name, &account_type, &access_token, &refresh_token) {
        Ok(kind) => kind,
        Err(message) => {
            return Err(message);
        },
    };
    let account = Account::new(name, kind, access_token, refresh_token);
    let ghost made = account@;
    let r = register_account(manager, account);
    assert(answers_request(made, name@, kind, text_of(access_token), text_of(refresh_token)));
    assert(final(manager)@ == offered(old(manager)@, made).0);
    r
}

} // verus!
