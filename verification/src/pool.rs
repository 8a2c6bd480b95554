//! Connection-pool configuration.
//!
//! The pool itself — clients, scheduler, wire protocol — lives with the
//! caller. What the core owns is the reading of the endpoint URL's query
//! parameters and the two non-fatal warnings the pool issues: one when
//! response compression is off, one when no connection timeout is set (the
//! default is typically too short).

use vstd::prelude::*;

use crate::text::{chars_eq, chars_find, chars_split, chars_sub, first_at, split_char, str_chars};

verus! {

/// The query part of an endpoint URL: what follows the first `?`, or
/// nothing.
pub open spec fn url_query(url: Seq<char>) -> Option<Seq<char>> {
    if first_at(url, '?') == url.len() {
        None
    } else {
        Some(url.skip(first_at(url, '?') + 1))
    }
}

/// The key of one `key=value` query parameter; a parameter without `=` is
/// all key.
pub open spec fn param_key(p: Seq<char>) -> Seq<char> {
    p.take(first_at(p, '='))
}

/// The value of one `key=value` query parameter; empty without `=`.
pub open spec fn param_value(p: Seq<char>) -> Seq<char> {
    if first_at(p, '=') == p.len() {
        Seq::empty()
    } else {
        p.skip(first_at(p, '=') + 1)
    }
}

/// The value of the first query parameter with this key, if any.
pub open spec fn lookup_param(params: Seq<Seq<char>>, key: Seq<char>) -> Option<Seq<char>>
    decreases params.len(),
{
    if params.len() == 0 {
        None
    } else if param_key(params[0]) == key {
        Some(param_value(params[0]))
    } else {
        lookup_param(params.skip(1), key)
    }
}

/// The value of a URL query parameter, if the URL carries one of this key.
pub open spec fn url_param(url: Seq<char>, key: Seq<char>) -> Option<Seq<char>> {
    match url_query(url) {
        Option::None => None,
        Option::Some(q) => lookup_param(split_char(q, '&'), key),
    }
}

/// The non-fatal warnings a pool issues for an endpoint URL.
#[derive(Clone, Copy, Debug, PartialEq, Eq, Structural)]
pub struct PoolConfigWarnings {
    /// The `compression` parameter is unset or `none`: response transfers
    /// stay uncompressed.
    pub compression_off: bool,
    /// The `connection_timeout` parameter is unset: the default is
    /// typically too short.
    pub no_connection_timeout: bool,
}

/// Looks one key up among already split query parameters.
fn lookup_param_exec(params: &Vec<Vec<char>>, key: &Vec<char>) -> (r: Option<Vec<char>>)
    ensures
        match r {
            Some(v) => lookup_param(params@.map_values(|p: Vec<char>| p@), key@) == Some(v@),
            None => lookup_param(params@.map_values(|p: Vec<char>| p@), key@) is None,
        },
{
    let ghost model = params@.map_values(|p: Vec<char>| p@);
    let mut i: usize = 0;
    proof {
        assert(model.skip(0) =~= model);
    }
    while i < params.len()
        invariant
            i <= params@.len(),
            model == params@.map_values(|p: Vec<char>| p@),
            lookup_param(model, key@) == lookup_param(model.skip(i as int), key@),
        decreases params@.len() - i,
    {
        let ghost tail = model.skip(i as int);
        let p = &params[i];
        proof {
            assert(tail[0] == p@);
            assert(tail.skip(1) =~= model.skip(i + 1));
        }
        let eq_pos = chars_find(p, '=');
        let k = match eq_pos {
            Option::Some(eq) => chars_sub(p, 0, eq),
            Option::None => {
                proof {
                    assert(p@.take(p@.len() as int) =~= p@);
                }
                chars_sub(p, 0, p.len())
            },
        };
        let matches_key = chars_eq(&k, key);
        if matches_key {
            proof {
                assert(param_key(tail[0]) == key@);
            }
            match eq_pos {
                Option::Some(eq) => {
                    let plen = p.len();
                    proof {
                        assert(eq < plen);
                    }
                    let v = chars_sub(p, eq + 1, plen);
                    proof {
                        assert(v@ =~= param_value(p@));
                    }
                    return Some(v);
                },
                Option::None => {
                    let v: Vec<char> = Vec::new();
                    proof {
                        assert(v@ =~= param_value(p@));
                    }
                    return Some(v);
                },
            }
        }
        proof {
            assert(param_key(tail[0]) == k@);
            assert(param_key(tail[0]) != key@);
        }
        i += 1;
    }
    proof {
        assert(model.skip(model.len() as int) =~= Seq::<Seq<char>>::empty());
    }
    None
}

/// Reads the endpoint URL and says which configuration warnings the pool
/// issues: compression off when the `compression` parameter is unset or
/// `none`, and a missing `connection_timeout`.
pub fn check_pool_config(url: &str) -> (r: PoolConfigWarnings)
    ensures
        r.compression_off == (url_param(url@, "compression"@) is None || url_param(
            url@,
            "compression"@,
        ) == Some("none"@)),
        r.no_connection_timeout == (url_param(url@, "connection_timeout"@) is None),
{
    let chars = str_chars(url);
    let found = chars_find(&chars, '?');
    let query = match found {
        Option::Some(q) => {
            let clen = chars.len();
            proof {
                assert(q < clen);
            }
            chars_sub(&chars, q + 1, clen)
        },
        Option::None => {
            return PoolConfigWarnings { compression_off: true, no_connection_timeout: true };
        },
    };
    proof {
        assert(query@ =~= url@.skip(first_at(url@, '?') + 1));
    }
    let params = chars_split(&query, '&');
    proof {
        assert(params@.map_values(|p: Vec<char>| p@) =~= split_char(query@, '&'));
    }
    let compression = lookup_param_exec(&params, &str_chars("compression"));
    let timeout = lookup_param_exec(&params, &str_chars("connection_timeout"));
    let compression_off = match &compression {
        Option::Some(v) => {
            let none_lit = str_chars("none");
            chars_eq(v, &none_lit)
        },
        Option::None => true,
    };
    PoolConfigWarnings { compression_off, no_connection_timeout: timeout.is_none() }
}

} // verus!
