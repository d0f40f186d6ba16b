//! The ids of the Unix users and groups that the configuration names.

use crate::error::Error;
use crate::text::{law_beginnings_and_parts, occurs, opt_ref};
use vstd::prelude::*;

verus! {

/// What a look at the accounts gave: nothing where it failed, else the id of
/// the account, where there is one.
pub type Lookup = Option<Option<u32>>;

/// What is reported where an account has no id.
pub open spec fn lookup_failure(kind: Seq<char>, name: Seq<char>, found: Lookup) -> Seq<char> {
    if found is None {
        "failed to look up "@ + kind + " "@ + name
    } else {
        "unknown "@ + kind + " "@ + name
    }
}

fn account_id(kind: &str, name: &str, found: Lookup) -> (out: Result<u32, Error>)
    ensures
        match out {
            Ok(id) => found == Some(Some(id)),
            Err(error) => {
                &&& !(found is Some && found->0 is Some)
                &&& error matches Error::UnknownAccount(text)
                &&& text@ == lookup_failure(kind@, name@, found)
            },
        },
{
    let mut text: String = match found {
        None => "failed to look up ".to_owned(),
        Some(None) => "unknown ".to_owned(),
        Some(Some(id)) => {
            return Ok(id);
        },
    };
    text.append(kind);
    text.append(" ");
    text.append(name);
    Err(Error::UnknownAccount(text))
}

/// The id of a user, from a look at the accounts.
pub fn user_id(name: &str, found: Lookup) -> (out: Result<u32, Error>)
    ensures
        match out {
            Ok(id) => found == Some(Some(id)),
            Err(error) => {
                &&& !(found is Some && found->0 is Some)
                &&& error matches Error::UnknownAccount(text)
                &&& text@ == lookup_failure("user"@, name@, found)
            },
        },
{
    account_id("user", name, found)
}

/// The id of a group, from a look at the accounts.
pub fn group_id(name: &str, found: Lookup) -> (out: Result<u32, Error>)
    ensures
        match out {
            Ok(id) => found == Some(Some(id)),
            Err(error) => {
                &&& !(found is Some && found->0 is Some)
                &&& error matches Error::UnknownAccount(text)
                &&& text@ == lookup_failure("group"@, name@, found)
            },
        },
{
    account_id("group", name, found)
}

/// A user and a group to give a file to; none where it stays as it is.
pub type Owner = Option<(Option<u32>, Option<u32>)>;

/// Whether an account is named and was not found.
pub open spec fn is_missing(name: Option<Seq<char>>, id: Option<u32>) -> bool {
    name is Some && id is None
}

fn table_failure(kind: &str, name: &str) -> (error: Error)
    ensures
        error matches Error::UnknownAccount(text) && text@ == "unknown ACPI table "@ + kind@ + " "@
            + name@,
{
    let mut text: String = "unknown ACPI table ".to_owned();
    text.append(kind);
    text.append(" ");
    text.append(name);
    Error::UnknownAccount(text)
}

/// Whom the file of an ACPI table is given to, from the names in its rule and
/// the ids that were found for them.
pub fn table_owner(
    user: Option<&str>,
    uid: Option<u32>,
    group: Option<&str>,
    gid: Option<u32>,
) -> (out: Result<Owner, Error>)
    ensures
        if is_missing(opt_ref(user), uid) {
            &&& out matches Err(error)
            &&& error matches Error::UnknownAccount(text)
            &&& text@ == "unknown ACPI table "@ + "user"@ + " "@ + user->0@
        } else if is_missing(opt_ref(group), gid) {
            &&& out matches Err(error)
            &&& error matches Error::UnknownAccount(text)
            &&& text@ == "unknown ACPI table "@ + "group"@ + " "@ + group->0@
        } else if user is None && group is None {
            out == Ok::<Owner, Error>(None)
        } else {
            out == Ok::<Owner, Error>(
                Some(
                    (
                        if user is Some {
                            uid
                        } else {
                            None
                        },
                        if group is Some {
                            gid
                        } else {
                            None
                        },
                    ),
                ),
            )
        },
{
    let mut owner_user: Option<u32> = None;
    if let Some(name) = user {
        if uid.is_none() {
            return Err(table_failure("user", name));
        }
        owner_user = uid;
    }
    let mut owner_group: Option<u32> = None;
    if let Some(name) = group {
        if gid.is_none() {
            return Err(table_failure("group", name));
        }
        owner_group = gid;
    }
    if user.is_none() && group.is_none() {
        return Ok(None);
    }
    Ok(Some((owner_user, owner_group)))
}

/// The id of an account is the one that was found; an account that was not
/// found or could not be looked up is a failure that names it.
pub proof fn law_accounts(
    name: &str,
    found: Lookup,
    user: Result<u32, Error>,
    group: Result<u32, Error>,
)
    requires
        call_ensures(user_id, (name, found), user),
        call_ensures(group_id, (name, found), group),
    ensures
        found is Some && found->0 is Some ==> user == Ok::<u32, Error>(found->0->0) && group == Ok::<
            u32,
            Error,
        >(found->0->0),
        found is None || found->0 is None ==> user is Err && group is Err,
        user matches Err(error) ==> (error matches Error::UnknownAccount(text) && occurs(
            text@,
            name@,
        ) && occurs(text@, "user"@)),
        group matches Err(error) ==> (error matches Error::UnknownAccount(text) && occurs(
            text@,
            name@,
        ) && occurs(text@, "group"@)),
{
    lemma_failure_names(user, "user"@, name@, found);
    lemma_failure_names(group, "group"@, name@, found);
}

proof fn lemma_failure_names(
    out: Result<u32, Error>,
    kind: Seq<char>,
    name: Seq<char>,
    found: Lookup,
)
    ensures
        out matches Err(error) ==> (error matches Error::UnknownAccount(text) ==> text@
            == lookup_failure(kind, name, found) ==> occurs(text@, name) && occurs(text@, kind)),
{
    let start = if found is None {
        "failed to look up "@
    } else {
        "unknown "@
    };
    let text = lookup_failure(kind, name, found);
    law_beginnings_and_parts(text, name);
    law_beginnings_and_parts(text, kind);
    assert(text =~= (start + kind + " "@) + name + Seq::empty());
    assert(text =~= start + kind + (" "@ + name));
}

/// The file of a table is given to exactly the accounts that its rule names; a
/// named account that was not found is a failure, and without names the file
/// stays as it is.
pub proof fn law_table_owners(
    user: Option<&str>,
    uid: Option<u32>,
    group: Option<&str>,
    gid: Option<u32>,
    out: Result<Owner, Error>,
)
    requires
        call_ensures(table_owner, (user, uid, group, gid), out),
    ensures
        out is Err <==> (user is Some && uid is None) || (group is Some && gid is None),
        user is None && group is None ==> out == Ok::<Owner, Error>(None),
        out is Ok && user is Some ==> (out->Ok_0) is Some && ((out->Ok_0)->0).0 == uid,
        out is Ok && group is Some ==> (out->Ok_0) is Some && ((out->Ok_0)->0).1 == gid,
        out is Ok && user is None && group is Some ==> ((out->Ok_0)->0).0 is None,
        out is Ok && group is None && user is Some ==> ((out->Ok_0)->0).1 is None,
{
}

} // verus!
