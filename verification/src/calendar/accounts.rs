//! Calendar accounts: what syncing one reads, and how the account is marked as
//! synced. Their passwords live in the system keyring under one service name.
use crate::error::LpError;
use crate::models::{CalendarAccount, CalendarKind};
use vstd::prelude::*;
use vstd::string::StringExecFns;

verus! {

/// The keyring refused a request.
#[derive(Debug)]
pub enum AccountError {
    Keyring(String),
}

impl AccountError {
    /// The error as a sentence.
    pub fn message(&self) -> (s: String)
        ensures
            s@ == match self {
                AccountError::Keyring(m) => "Keyring error: "@ + m@,
            },
    {
        match self {
            AccountError::Keyring(m) => {
                let mut s = "Keyring error: ".to_owned();
                s.append(m.as_str());
                s
            },
        }
    }
}

/// Where the events of an account come from.
#[derive(Debug)]
pub enum SyncSource {
    /// The calendar file at this path.
    IcsFile(String),
    /// The account's CalDAV server.
    CalDav,
    /// Nothing: a local calendar holds only what is entered by hand.
    Nothing,
}

/// The position of the first account with the id `id`.
pub open spec fn account_index(accounts: Seq<CalendarAccount>, id: Seq<char>) -> Option<int>
    decreases accounts.len(),
{
    if accounts.len() == 0 {
        None
    } else {
        match account_index(accounts.drop_last(), id) {
            Some(k) => Some(k),
            None => if accounts.last().id@ == id {
                Some(accounts.len() - 1)
            } else {
                None
            },
        }
    }
}

proof fn lemma_account_index(accounts: Seq<CalendarAccount>, id: Seq<char>)
    ensures
        account_index(accounts, id) matches Some(k) ==> 0 <= k < accounts.len() && accounts[k].id@ == id,
    decreases accounts.len(),
{
    if accounts.len() > 0 {
        lemma_account_index(accounts.drop_last(), id);
    }
}

fn find_account(accounts: &[CalendarAccount], id: &str) -> (r: Option<usize>)
    ensures
        match r {
            Some(k) => account_index(accounts@, id@) == Some(k as int),
            None => account_index(accounts@, id@) is None,
        },
{
    let mut i: usize = 0;
    while i < accounts.len()
        invariant
            i <= accounts@.len(),
            account_index(accounts@.take(i as int), id@) is None,
        decreases accounts@.len() - i,
    {
        assert(accounts@.take(i + 1).drop_last() =~= accounts@.take(i as int));
        let name = crate::text::chars_of(accounts[i].id.as_str());
        if crate::text::is_text(name.as_slice(), id) {
            assert(account_index(accounts@.take(i + 1), id@) == Some(i as int));
            proof {
                lemma_index_prefix(accounts@, id@, i as int + 1);
            }
            return Some(i);
        }
        i += 1;
    }
    assert(accounts@.take(accounts@.len() as int) =~= accounts@);
    None
}

/// The first match in a prefix is the first match in the whole list.
proof fn lemma_index_prefix(accounts: Seq<CalendarAccount>, id: Seq<char>, n: int)
    requires
        0 <= n <= accounts.len(),
        account_index(accounts.take(n), id) is Some,
    ensures
        account_index(accounts, id) == account_index(accounts.take(n), id),
    decreases accounts.len() - n,
{
    if n < accounts.len() {
        let m = n + 1;
        assert(accounts.take(m).drop_last() =~= accounts.take(n));
        lemma_index_prefix(accounts, id, m);
    } else {
        assert(accounts.take(n) =~= accounts);
    }
}

/// What syncing the account `account_id` reads: the position of the account and its
/// source. Refused when no account has the id (`Other`), and when a file account
/// has no file chosen (`Calendar`).
pub fn sync_source(accounts: &[CalendarAccount], account_id: &str) -> (r: Result<(usize, SyncSource), LpError>)
    ensures
        match account_index(accounts@, account_id@) {
            None => r matches Err(LpError::Other(m)) && m@ == "Account not found"@,
            Some(k) => match accounts@[k].kind {
                CalendarKind::Local => r matches Ok((i, SyncSource::Nothing)) && i == k,
                CalendarKind::CalDav => r matches Ok((i, SyncSource::CalDav)) && i == k,
                CalendarKind::IcsFile => match accounts@[k].ics_path {
                    Some(p) => r matches Ok((i, SyncSource::IcsFile(q))) && i == k && q@ == p@,
                    None => r matches Err(LpError::Calendar(m)) && m@ == "No ICS file chosen"@,
                },
            },
        },
{
    proof {
        lemma_account_index(accounts@, account_id@);
    }
    match find_account(accounts, account_id) {
        None => Err(LpError::Other("Account not found".to_string())),
        Some(k) => match accounts[k].kind {
            CalendarKind::Local => Ok((k, SyncSource::Nothing)),
            CalendarKind::CalDav => Ok((k, SyncSource::CalDav)),
            CalendarKind::IcsFile => match &accounts[k].ics_path {
                Some(p) => Ok((k, SyncSource::IcsFile(p.clone()))),
                None => Err(LpError::Calendar("No ICS file chosen".to_string())),
            },
        },
    }
}

/// Marks the first account with the id `account_id` as synced at `now`; the list is
/// otherwise unchanged.
pub fn mark_synced(accounts: &mut Vec<CalendarAccount>, account_id: &str, now: i64)
    ensures
        match account_index(old(accounts)@, account_id@) {
            None => final(accounts)@ == old(accounts)@,
            Some(k) => final(accounts)@ == old(accounts)@.update(
                k,
                CalendarAccount { last_synced: Some(now), ..old(accounts)@[k] },
            ),
        },
{
    proof {
        lemma_account_index(accounts@, account_id@);
    }
    match find_account(accounts.as_slice(), account_id) {
        None => {},
        Some(k) => {
            let mut a = accounts.remove(k);
            a.last_synced = Some(now);
            accounts.insert(k, a);
            assert(accounts@ =~= old(accounts)@.update(k as int, CalendarAccount { last_synced: Some(now), ..old(accounts)@[k as int] }));
        },
    }
}

} // verus!
