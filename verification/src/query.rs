//! Query-string lookup for URL-configured display options.
//!
//! The query text is scanned at byte level: pairs are separated by
//! `&`, a key from its value by the first `=` of the pair, and a
//! second `=` inside one pair ends the value early.  A pair without
//! any `=` aborts the whole lookup.

use vstd::prelude::*;
use vstd::string::StringSliceAdditionalSpecFns;

verus! {

/// Byte code of `?`.
pub const QMARK: u8 = 0x3F;

/// Byte code of `&`.
pub const AMP: u8 = 0x26;

/// Byte code of `=`.
pub const EQUALS: u8 = 0x3D;

/// First position of byte `b` at or after `i`, or the length.
pub open spec fn find_byte(q: Seq<u8>, b: u8, i: int) -> int
    decreases q.len() - i,
        when 0 <= i <= q.len()
{
    if i < 0 || i >= q.len() {
        q.len() as int
    } else if q[i] == b {
        i
    } else {
        find_byte(q, b, i + 1)
    }
}

/// The byte span of the value the query associates with `key`,
/// scanning pairs from position `i`.
pub open spec fn span_from(q: Seq<u8>, key: Seq<u8>, i: int) -> Option<(int, int)>
    decreases q.len() - i,
        when 0 <= i <= q.len()
{
    if i < 0 || i > q.len() {
        None
    } else {
        let amp = find_byte(q, AMP, i);
        let eq = find_byte(q, EQUALS, i);
        if eq >= amp {
            // a pair without '=' aborts the lookup
            None
        } else {
            let eq2 = find_byte(q, EQUALS, eq + 1);
            let vend = if eq2 < amp {
                eq2
            } else {
                amp
            };
            if q.subrange(i, eq) == key {
                Some((eq + 1, vend))
            } else if amp >= q.len() || amp < i {
                None
            } else {
                span_from(q, key, amp + 1)
            }
        }
    }
}

/// The value the query associates with `key`, scanning pairs from
/// position `i`.
pub open spec fn lookup_from(q: Seq<u8>, key: Seq<u8>, i: int) -> Option<Seq<u8>> {
    match span_from(q, key, i) {
        Some(sp) => Some(q.subrange(sp.0, sp.1)),
        None => None,
    }
}

/// The byte span a whole-query lookup selects.
pub open spec fn query_span(q: Seq<u8>, key: Seq<u8>) -> Option<(int, int)> {
    if q.len() == 0 || q[0] != QMARK {
        None
    } else {
        span_from(q, key, 1)
    }
}

/// What a query string associates with a key: `None` without a
/// leading `?`, on a pair without `=`, or when no pair matches.
pub open spec fn query_value(q: Seq<u8>, key: Seq<u8>) -> Option<Seq<u8>> {
    if q.len() == 0 || q[0] != QMARK {
        None
    } else {
        lookup_from(q, key, 1)
    }
}

/// Whether a value span can be cut out of the text: both cuts land on
/// character boundaries, which holds for any value of well-formed
/// UTF-8 text.
pub open spec fn value_cut_ok(q: Seq<u8>, sp: (int, int)) -> bool {
    &&& vstd::utf8::is_char_boundary(q, sp.0)
    &&& vstd::utf8::is_char_boundary(q.subrange(sp.0, q.len() as int), sp.1 - sp.0)
}

/// Whether the pair key `q[i..eqpos)` equals the searched key.
fn key_matches(q: &[u8], i: usize, eqpos: usize, key: &[u8]) -> (r: bool)
    requires
        i <= eqpos <= q@.len(),
    ensures
        r <==> q@.subrange(i as int, eqpos as int) == key@,
{
    let klen = eqpos - i;
    if klen != key.len() {
        proof {
            assert(q@.subrange(i as int, eqpos as int).len() != key@.len());
        }
        return false;
    }
    let mut j: usize = 0;
    while j < klen
        invariant
            j <= klen,
            klen == key@.len(),
            i + klen == eqpos <= q@.len(),
            forall|t: int| 0 <= t < j ==> q@.subrange(i as int, eqpos as int)[t] == key@[t],
        decreases klen - j,
    {
        if q[i + j] != key[j] {
            proof {
                assert(q@.subrange(i as int, eqpos as int)[j as int] != key@[j as int]);
            }
            return false;
        }
        j = j + 1;
    }
    proof {
        assert(q@.subrange(i as int, eqpos as int) =~= key@);
    }
    true
}

/// First position of byte `b` in `q` at or after `from`.
fn find_byte_exec(q: &[u8], b: u8, from: usize) -> (r: usize)
    requires
        from <= q@.len(),
    ensures
        r == find_byte(q@, b, from as int),
        from <= r <= q@.len(),
        r < q@.len() ==> q@[r as int] == b,
{
    let n = q.len();
    let mut i = from;
    while i < n
        invariant
            from <= i <= n,
            n == q@.len(),
            find_byte(q@, b, from as int) == find_byte(q@, b, i as int),
        decreases n - i,
    {
        if q[i] == b {
            return i;
        }
        i = i + 1;
    }
    n
}

/// Looks a key up in a URL query string (as returned by a browser's
/// `location.search`) and hands back the matching value.  A value cut
/// at a byte position that is not a character boundary is refused,
/// which cannot happen for well-formed text.
pub fn parse_url_query_string<'a>(query: &'a str, search_key: &str) -> (r: Option<&'a str>)
    ensures
        r is Some ==> query_value(query.spec_bytes(), search_key.spec_bytes()) == Some(
            r->Some_0.spec_bytes(),
        ),
        query_value(query.spec_bytes(), search_key.spec_bytes()) is None ==> r is None,
        // success is owed whenever the found value can be cut out
        match query_span(query.spec_bytes(), search_key.spec_bytes()) {
            Some(sp) => value_cut_ok(query.spec_bytes(), sp) ==> r is Some,
            None => r is None,
        },
{
    let qb = query.as_bytes();
    let kb = search_key.as_bytes();
    let n = qb.len();
    if n == 0 || qb[0] != QMARK {
        return None;
    }
    let mut i: usize = 1;
    loop
        invariant
            1 <= i <= n,
            n == qb@.len(),
            qb@ == query.spec_bytes(),
            kb@ == search_key.spec_bytes(),
            n >= 1 && qb@[0] == QMARK,
            query_value(qb@, kb@) == lookup_from(qb@, kb@, i as int),
            query_span(qb@, kb@) == span_from(qb@, kb@, i as int),
        decreases n - i,
    {
        let amp = find_byte_exec(qb, AMP, i);
        let eq = find_byte_exec(qb, EQUALS, i);
        if eq >= amp {
            return None;
        }
        // compare this pair's key with the searched key
        let matched = key_matches(qb, i, eq, kb);
        if matched {
            let eq2 = find_byte_exec(qb, EQUALS, eq + 1);
            let vend = if eq2 < amp {
                eq2
            } else {
                amp
            };
            let vstart = eq + 1;
            if !query.is_char_boundary(vstart) {
                return None;
            }
            let (_, tail) = query.split_at(vstart);
            if !tail.is_char_boundary(vend - vstart) {
                return None;
            }
            let (value, _) = tail.split_at(vend - vstart);
            proof {
                assert(value.spec_bytes() =~= qb@.subrange(vstart as int, vend as int));
            }
            return Some(value);
        } else {
            if amp >= n {
                return None;
            }
            i = amp + 1;
        }
    }
}

} // verus!
