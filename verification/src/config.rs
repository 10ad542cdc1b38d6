use vstd::prelude::*;

use crate::text::{chars_of, parse_u16, parse_unsigned};

verus! {

/// The port that the `PORT` setting names: 8000 where it is unset, else its value read as a
/// `u16`; none where that value is no port number.
pub open spec fn port_of(setting: Option<Seq<char>>) -> Option<nat> {
    match setting {
        Some(s) => parse_unsigned(s, u16::MAX as nat),
        None => Some(8000),
    }
}

/// The port to listen on, from the value of the `PORT` setting where it is set.
pub fn port_from(setting: Option<&str>) -> (r: Option<u16>)
    ensures
        match r {
            Some(p) => port_of(
                match setting {
                    Some(s) => Some(s@),
                    None => None,
                },
            ) == Some(p as nat),
            None => port_of(
                match setting {
                    Some(s) => Some(s@),
                    None => None,
                },
            ) is None,
        },
{
    match setting {
        Some(s) => parse_u16(chars_of(s).as_slice()),
        None => Some(8000),
    }
}

/// The Redis server: the `REDIS_URL` setting where it is set, else the local default.
pub open spec fn redis_url_of(setting: Option<Seq<char>>) -> Seq<char> {
    match setting {
        Some(s) => s,
        None => "redis://localhost:6379"@,
    }
}

/// The Redis server to use, from the value of the `REDIS_URL` setting where it is set.
pub fn redis_url_from(setting: Option<String>) -> (r: String)
    ensures
        r@ == redis_url_of(
            match setting {
                Some(s) => Some(s@),
                None => None,
            },
        ),
{
    match setting {
        Some(s) => s,
        None => "redis://localhost:6379".to_owned(),
    }
}

} // verus!
