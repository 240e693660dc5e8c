//! Reading the deployment configuration: either plain text with one
//! address per line, or a JSON object of named addresses.

use vstd::prelude::*;
use crate::text::{split_seq, split_char, str_eq, views_of};

verus! {

/// The line at `index` of a line-based configuration; `None` when the
/// text has fewer lines.
pub fn config_line<'a>(text: &'a str, index: usize) -> (res: Option<&'a str>)
    ensures
        index < split_seq(text@, '\n').len() ==> (res matches Some(l) && l@ == split_seq(
            text@,
            '\n',
        )[index as int]),
        index >= split_seq(text@, '\n').len() ==> res is None,
{
    let lines = split_char(text, '\n');
    if index < lines.len() {
        assert(views_of(lines@)[index as int] == lines@[index as int]@);
        Some(lines[index])
    } else {
        None
    }
}

/// The addresses of a line-based configuration: the server's on the third
/// line, the client's on the fourth and the service provider's on the fifth.
pub struct LineAddresses<'a> {
    pub server_address: &'a str,
    pub client_address: &'a str,
    pub sp_address: &'a str,
}

/// Reads the addresses of a line-based configuration; `None` when it has
/// fewer than five lines.
pub fn line_addresses<'a>(text: &'a str) -> (res: Option<LineAddresses<'a>>)
    ensures
        split_seq(text@, '\n').len() < 5 ==> res is None,
        split_seq(text@, '\n').len() >= 5 ==> (res matches Some(a) && a.server_address@
            == split_seq(text@, '\n')[2] && a.client_address@ == split_seq(text@, '\n')[3]
            && a.sp_address@ == split_seq(text@, '\n')[4]),
{
    let lines = split_char(text, '\n');
    if lines.len() < 5 {
        return None;
    }
    assert(views_of(lines@)[2] == lines@[2]@);
    assert(views_of(lines@)[3] == lines@[3]@);
    assert(views_of(lines@)[4] == lines@[4]@);
    Some(
        LineAddresses {
            server_address: lines[2],
            client_address: lines[3],
            sp_address: lines[4],
        },
    )
}

/// Whether results are forwarded to a client: the client address is not
/// the word "None".
pub fn forwards_to_client(client_address: &str) -> (res: bool)
    ensures
        res == (client_address@ != "None"@),
{
    !str_eq(client_address, "None")
}

/// What `serde_json` gives for the member `key` of the JSON text `text`:
/// the string it holds, or nothing when the text is not JSON, is not an
/// object, lacks the member or holds no string there.
pub uninterp spec fn json_member_string(text: Seq<char>, key: Seq<char>) -> Option<Seq<char>>;

/// `serde_json::from_str` into a `Value`, then the member `key` read as a
/// string: the result is named by `json_member_string`.
#[verifier::external_body]
fn json_string_member(text: &str, key: &str) -> (res: Option<String>)
    ensures
        match res {
            Some(s) => json_member_string(text@, key@) == Some(s@),
            None => json_member_string(text@, key@) is None,
        },
{
    serde_json::from_str::<serde_json::Value>(text).ok()?.get(key)?.as_str().map(|s| s.to_string())
}

/// The string that the JSON configuration `text` holds under `key`.
pub fn config_string(text: &str, key: &str) -> (res: Option<String>)
    ensures
        match res {
            Some(s) => json_member_string(text@, key@) == Some(s@),
            None => json_member_string(text@, key@) is None,
        },
{
    json_string_member(text, key)
}

/// The addresses that the scheduler's JSON configuration names.
pub struct SchedulerAddresses {
    pub server_address: String,
    pub client_address: String,
    pub attestation_address: String,
    pub sp_address: String,
}

/// Reads the scheduler's four addresses from its JSON configuration;
/// `None` when any of them is missing.
pub fn scheduler_addresses(text: &str) -> (res: Option<SchedulerAddresses>)
    ensures
        res is Some <==> (json_member_string(text@, "server_address"@) is Some
            && json_member_string(text@, "client_address"@) is Some && json_member_string(
            text@,
            "attestation_address"@,
        ) is Some && json_member_string(text@, "sp_address"@) is Some),
        res matches Some(a) ==> Some(a.server_address@) == json_member_string(
            text@,
            "server_address"@,
        ) && Some(a.client_address@) == json_member_string(text@, "client_address"@) && Some(
            a.attestation_address@,
        ) == json_member_string(text@, "attestation_address"@) && Some(a.sp_address@)
            == json_member_string(text@, "sp_address"@),
{
    let server_address = match config_string(text, "server_address") {
        Some(s) => s,
        None => return None,
    };
    let client_address = match config_string(text, "client_address") {
        Some(s) => s,
        None => return None,
    };
    let attestation_address = match config_string(text, "attestation_address") {
        Some(s) => s,
        None => return None,
    };
    let sp_address = match config_string(text, "sp_address") {
        Some(s) => s,
        None => return None,
    };
    Some(SchedulerAddresses { server_address, client_address, attestation_address, sp_address })
}

} // verus!
