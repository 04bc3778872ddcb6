//! Resolving a connection request: the raw query string of an attach
//! request is decoded into key/value pairs, the room id parsed from the
//! `roomId` value, and the username taken from `username` or defaulted.
//! A request that resolves badly is rejected before any session exists.

use vstd::prelude::*;
use vstd::string::StringExecFns;

verus! {

/// Why a connection attempt is rejected before a session is created:
/// the query string does not decode, or it carries no parseable room
/// id.  Either way the caller answers with a client error.
#[derive(PartialEq, Eq, Structural, Clone, Copy, Debug)]
pub enum WireError {
    InvalidQuery,
    InvalidRoomId,
}

/// What a connection request resolves to: the room to bind to and the
/// username presented (or the default).
pub struct ConnectParams {
    pub room_id: u128,
    pub username: String,
}

/// What `serde_urlencoded` decodes a query string to, if anything:
/// its key/value pairs in order, duplicates kept.
pub uninterp spec fn query_pairs(q: Seq<char>) -> Option<Seq<(Seq<char>, Seq<char>)>>;

/// What `uuid` parses a string to, if anything: the 128-bit value of
/// the UUID the string writes.
pub uninterp spec fn uuid_value(s: Seq<char>) -> Option<u128>;

/// Relies on `serde_urlencoded::from_str`: decodes an
/// `application/x-www-form-urlencoded` string into its key/value pairs,
/// in order and with duplicates kept; the result is a function of the
/// input alone.
#[verifier::external_body]
fn parse_query(q: &str) -> (r: Option<Vec<(String, String)>>)
    ensures
        r is Some <==> query_pairs(q@) is Some,
        r is Some ==> r->0.deep_view() == query_pairs(q@)->0,
{
    serde_urlencoded::from_str::<Vec<(String, String)>>(q).ok()
}

/// Relies on `uuid::Uuid::parse_str` and `Uuid::as_u128`: parses a
/// UUID written as hexadecimal digits with optional hyphens (simple,
/// hyphenated, braced or urn form) into its 128-bit value; the result
/// is a function of the input alone.
#[verifier::external_body]
fn parse_room_id(s: &str) -> (r: Option<u128>)
    ensures
        r == uuid_value(s@),
{
    match uuid::Uuid::parse_str(s) {
        Ok(u) => Some(u.as_u128()),
        Err(_) => None,
    }
}

/// The value of the last pair carrying `key` — the occurrence that
/// wins when a query repeats a key.
pub open spec fn last_value(pairs: Seq<(Seq<char>, Seq<char>)>, key: Seq<char>) -> Option<
    Seq<char>,
>
    decreases pairs.len(),
{
    if pairs.len() == 0 {
        None
    } else if pairs.last().0 == key {
        Some(pairs.last().1)
    } else {
        last_value(pairs.drop_last(), key)
    }
}

/// What decoded pairs resolve to: the parsed `roomId` value — missing
/// or unparseable rejects the request — and the `username` value, with
/// `guest` standing in when none was sent.
pub open spec fn resolve_model(pairs: Seq<(Seq<char>, Seq<char>)>) -> Result<
    (u128, Seq<char>),
    WireError,
> {
    match last_value(pairs, "roomId"@) {
        Option::None => Result::Err(WireError::InvalidRoomId),
        Option::Some(s) => match uuid_value(s) {
            Option::None => Result::Err(WireError::InvalidRoomId),
            Option::Some(id) => Result::Ok(
                (
                    id,
                    match last_value(pairs, "username"@) {
                        Option::None => "guest"@,
                        Option::Some(u) => u,
                    },
                ),
            ),
        },
    }
}

/// What a whole query string resolves to: a query that does not decode
/// is rejected outright, anything else as [`resolve_model`] says.
pub open spec fn connect_model(q: Seq<char>) -> Result<(u128, Seq<char>), WireError> {
    match query_pairs(q) {
        Option::None => Result::Err(WireError::InvalidQuery),
        Option::Some(pairs) => resolve_model(pairs),
    }
}

/// The value of the last pair carrying `key`, as the decoded pairs
/// stand in memory.
fn lookup_last(pairs: &Vec<(String, String)>, key: &String) -> (r: Option<String>)
    ensures
        r is Some <==> last_value(pairs.deep_view(), key@) is Some,
        r is Some ==> r->0@ == last_value(pairs.deep_view(), key@)->0,
{
    let n = pairs.len();
    let mut found: Option<String> = None;
    let mut i: usize = 0;
    while i < n
        invariant
            i <= n,
            n == pairs@.len(),
            found is Some <==> last_value(pairs.deep_view().take(i as int), key@) is Some,
            found is Some ==> found->0@ == last_value(pairs.deep_view().take(i as int), key@)->0,
        decreases n - i,
    {
        proof {
            assert(pairs.deep_view().take(i as int + 1).drop_last() =~= pairs.deep_view().take(
                i as int,
            ));
            assert(pairs.deep_view().take(i as int + 1).last() == pairs.deep_view()[i as int]);
            assert(pairs.deep_view()[i as int] == (pairs@[i as int].0@, pairs@[i as int].1@));
        }
        if pairs[i].0.eq(key) {
            found = Some(pairs[i].1.clone());
        }
        i += 1;
    }
    proof {
        assert(pairs.deep_view().take(n as int) =~= pairs.deep_view());
    }
    found
}

/// Resolves decoded pairs into connection parameters, exactly as
/// [`resolve_model`] says.
pub fn resolve_connect(pairs: &Vec<(String, String)>) -> (r: Result<ConnectParams, WireError>)
    ensures
        ({
            let model = resolve_model(pairs.deep_view());
            &&& r is Ok <==> model is Ok
            &&& r is Ok ==> r->Ok_0.room_id == model->Ok_0.0 && r->Ok_0.username@
                == model->Ok_0.1
            &&& r is Err ==> r->Err_0 == model->Err_0
        }),
{
    let room_key = String::from_str("roomId");
    match lookup_last(pairs, &room_key) {
        Option::None => Err(WireError::InvalidRoomId),
        Option::Some(s) => match parse_room_id(s.as_str()) {
            Option::None => Err(WireError::InvalidRoomId),
            Option::Some(id) => {
                let user_key = String::from_str("username");
                let username = match lookup_last(pairs, &user_key) {
                    Option::Some(u) => u,
                    Option::None => String::from_str("guest"),
                };
                Ok(ConnectParams { room_id: id, username })
            },
        },
    }
}

/// Resolves a raw query string into connection parameters, exactly as
/// [`connect_model`] says: no session exists yet, so a rejection here
/// leaves no state of any kind behind.
pub fn connect_request(query: &str) -> (r: Result<ConnectParams, WireError>)
    ensures
        ({
            let model = connect_model(query@);
            &&& r is Ok <==> model is Ok
            &&& r is Ok ==> r->Ok_0.room_id == model->Ok_0.0 && r->Ok_0.username@
                == model->Ok_0.1
            &&& r is Err ==> r->Err_0 == model->Err_0
        }),
{
    match parse_query(query) {
        Option::None => Err(WireError::InvalidQuery),
        Option::Some(pairs) => resolve_connect(&pairs),
    }
}

} // verus!
