//! Deriving the control-channel URL from the server's base URL: map the
//! scheme (`https` to `wss`, `http` to `ws`), drop trailing slashes, and
//! append the channel path.

use crate::strings::starts_with_lit;
use vstd::prelude::*;

verus! {

pub open spec fn https_prefix() -> Seq<char> {
    seq!['h', 't', 't', 'p', 's', ':', '/', '/']
}

pub open spec fn http_prefix() -> Seq<char> {
    seq!['h', 't', 't', 'p', ':', '/', '/']
}

pub open spec fn wss_prefix() -> Seq<char> {
    seq!['w', 's', 's', ':', '/', '/']
}

pub open spec fn ws_prefix() -> Seq<char> {
    seq!['w', 's', ':', '/', '/']
}

pub open spec fn has_prefix(s: Seq<char>, p: Seq<char>) -> bool {
    p.len() <= s.len() && s.subrange(0, p.len() as int) == p
}

/// `https://` becomes `wss://`, `http://` becomes `ws://`; anything else is
/// left alone.
pub open spec fn map_ws_scheme(s: Seq<char>) -> Seq<char> {
    if has_prefix(s, https_prefix()) {
        wss_prefix() + s.skip(https_prefix().len() as int)
    } else if has_prefix(s, http_prefix()) {
        ws_prefix() + s.skip(http_prefix().len() as int)
    } else {
        s
    }
}

/// `s` without its trailing slashes.
pub open spec fn trim_trailing_slashes(s: Seq<char>) -> Seq<char>
    decreases s.len(),
{
    if s.len() > 0 && s[s.len() - 1] == '/' {
        trim_trailing_slashes(s.take(s.len() - 1))
    } else {
        s
    }
}

/// The channel URL derived from a server base URL.
pub open spec fn ws_url_of(s: Seq<char>) -> Seq<char> {
    map_ws_scheme(trim_trailing_slashes(s)) + seq!['/', 'w', 's']
}

/// Scheme mapping applied to an already-mapped URL is the identity: a mapped
/// URL starts with `wss://` or `ws://` (or an unrecognised scheme), never
/// again with `https://` or `http://`.
pub proof fn lemma_map_ws_scheme_idempotent(s: Seq<char>)
    ensures
        map_ws_scheme(map_ws_scheme(s)) == map_ws_scheme(s),
{
    let r = map_ws_scheme(s);
    if has_prefix(s, https_prefix()) {
        assert(r[0] == 'w');
        assert(!has_prefix(r, https_prefix())) by {
            if has_prefix(r, https_prefix()) {
                assert(r.subrange(0, 8)[0] == r[0]);
            }
        }
        assert(!has_prefix(r, http_prefix())) by {
            if has_prefix(r, http_prefix()) {
                assert(r.subrange(0, 7)[0] == r[0]);
            }
        }
    } else if has_prefix(s, http_prefix()) {
        assert(r[0] == 'w');
        assert(!has_prefix(r, https_prefix())) by {
            if has_prefix(r, https_prefix()) {
                assert(r.subrange(0, 8)[0] == r[0]);
            }
        }
        assert(!has_prefix(r, http_prefix())) by {
            if has_prefix(r, http_prefix()) {
                assert(r.subrange(0, 7)[0] == r[0]);
            }
        }
    }
}

/// Derive the channel URL from a server base URL, as the control channel
/// connects: trim trailing slashes, map the scheme, append `/ws`.
pub fn http_to_ws_url(url: &str) -> (r: String)
    ensures
        r@ == ws_url_of(url@),
{
    let n = url.unicode_len();
    let mut b: usize = n;
    proof {
        assert(url@.take(n as int) =~= url@);
    }
    while b > 0 && url.get_char(b - 1) == '/'
        invariant
            b <= n == url@.len(),
            trim_trailing_slashes(url@) == trim_trailing_slashes(url@.take(b as int)),
        decreases b,
    {
        proof {
            assert(url@.take(b as int).take(b - 1) =~= url@.take(b - 1));
        }
        b = b - 1;
    }
    let t = url.substring_char(0, b);
    proof {
        assert(url@.take(b as int) =~= t@);
        // the loop stopped on a non-slash (or the empty string), so nothing
        // more is trimmed
        assert(trim_trailing_slashes(t@) == t@);
    }
    let mapped = if starts_with_lit(t, "https://") {
        proof {
            reveal_strlit("https://");
            reveal_strlit("wss://");
            assert(("https://")@ =~= https_prefix());
            assert(("wss://")@ =~= wss_prefix());
        }
        let rest = t.substring_char(8, b);
        let mut m = String::from_str("wss://");
        m.append(rest);
        proof {
            assert(m@ =~= map_ws_scheme(t@));
        }
        m
    } else if starts_with_lit(t, "http://") {
        proof {
            reveal_strlit("https://");
            reveal_strlit("http://");
            reveal_strlit("ws://");
            assert(("https://")@ =~= https_prefix());
            assert(("http://")@ =~= http_prefix());
            assert(("ws://")@ =~= ws_prefix());
        }
        let rest = t.substring_char(7, b);
        let mut m = String::from_str("ws://");
        m.append(rest);
        proof {
            assert(m@ =~= map_ws_scheme(t@));
        }
        m
    } else {
        proof {
            reveal_strlit("https://");
            reveal_strlit("http://");
            assert(("https://")@ =~= https_prefix());
            assert(("http://")@ =~= http_prefix());
        }
        String::from_str(t)
    };
    let mut out = mapped;
    out.append("/ws");
    proof {
        reveal_strlit("/ws");
        assert(("/ws")@ =~= seq!['/', 'w', 's']);
        assert(out@ =~= ws_url_of(url@));
    }
    out
}

} // verus!
