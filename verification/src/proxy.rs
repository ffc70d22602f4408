//! The reverse proxy's rules: which path segments a rule's prefix matches,
//! the upstream URL a request goes to, and which headers pass through.
use crate::text::{str_chars, str_eq};
use vstd::prelude::*;

verus! {

/// The pieces of `p` between '/' characters, empty ones included, as
/// `str::split('/')` gives them.
pub open spec fn split_slash(p: Seq<char>) -> Seq<Seq<char>>
    decreases p.len(),
{
    if p.len() == 0 {
        seq![seq![]]
    } else {
        let r = split_slash(p.drop_last());
        if p.last() == '/' {
            r.push(seq![])
        } else {
            r.update(r.len() - 1, r.last().push(p.last()))
        }
    }
}

/// The non-empty elements of `s`, in order.
pub open spec fn non_empty(s: Seq<Seq<char>>) -> Seq<Seq<char>>
    decreases s.len(),
{
    if s.len() == 0 {
        s
    } else if s.last().len() == 0 {
        non_empty(s.drop_last())
    } else {
        non_empty(s.drop_last()).push(s.last())
    }
}

/// The path segments that a proxy prefix such as `api/keeper` matches.
pub open spec fn spec_segments(prefix: Seq<char>) -> Seq<Seq<char>> {
    non_empty(split_slash(prefix))
}

/// The views of some strings.
pub open spec fn views(v: Seq<String>) -> Seq<Seq<char>> {
    v.map_values(|s: String| s@)
}

proof fn lemma_split_slash_len(p: Seq<char>)
    ensures
        split_slash(p).len() >= 1,
    decreases p.len(),
{
    if p.len() > 0 {
        lemma_split_slash_len(p.drop_last());
    }
}

/// The path segments that a proxy prefix such as `api/keeper` matches: its
/// pieces between '/' characters, the empty ones left out.
pub fn prefix_segments(prefix: &str) -> (r: Vec<String>)
    ensures
        views(r@) == spec_segments(prefix@),
{
    let cs = str_chars(prefix);
    let n = cs.len();
    let mut out: Vec<String> = Vec::new();
    let mut start: usize = 0;
    let ghost mut done: Seq<Seq<char>> = seq![];
    proof {
        assert(prefix@.take(0) =~= Seq::<char>::empty());
        assert(prefix@.subrange(0, 0) =~= Seq::<char>::empty());
        assert(done.push(Seq::<char>::empty()) =~= seq![Seq::<char>::empty()]);
    }
    for i in 0..n
        invariant
            n == prefix@.len(),
            cs@ == prefix@,
            start <= i,
            split_slash(prefix@.take(i as int)) == done.push(prefix@.subrange(start as int, i as int)),
            views(out@) == non_empty(done),
    {
        let ghost p1 = prefix@.take(i + 1);
        proof {
            assert(p1.drop_last() =~= prefix@.take(i as int));
            assert(p1.last() == prefix@[i as int]);
            lemma_split_slash_len(prefix@.take(i as int));
        }
        if cs[i] == '/' {
            let ghost piece = prefix@.subrange(start as int, i as int);
            if start < i {
                let seg = prefix.substring_char(start, i);
                let ghost prev = out@;
                out.push(String::from_str(seg));
                assert(views(out@) =~= views(prev).push(piece));
            }
            proof {
                let old_done = done;
                done = done.push(piece);
                assert(done.drop_last() =~= old_done);
                assert(prefix@.subrange(i + 1, i + 1) =~= Seq::<char>::empty());
                assert(split_slash(p1) =~= done.push(prefix@.subrange(i + 1, i + 1)));
            }
            start = i + 1;
        } else {
            proof {
                assert(prefix@.subrange(start as int, i + 1) =~= prefix@.subrange(
                    start as int,
                    i as int,
                ).push(prefix@[i as int]));
                assert(split_slash(p1) =~= done.push(prefix@.subrange(start as int, i + 1)));
            }
        }
    }
    let ghost last_piece = prefix@.subrange(start as int, n as int);
    proof {
        assert(prefix@.take(n as int) =~= prefix@);
    }
    if start < n {
        let seg = prefix.substring_char(start, n);
        let ghost prev = out@;
        out.push(String::from_str(seg));
        assert(views(out@) =~= views(prev).push(last_piece));
    }
    proof {
        assert(done.push(last_piece).drop_last() =~= done);
    }
    out
}

/// The URL that a request for `tail` with query `query` goes to on
/// `upstream`, the matched prefix already stripped from `tail`.
pub open spec fn spec_upstream_url(upstream: Seq<char>, tail: Seq<char>, query: Seq<char>) -> Seq<char> {
    let path = if tail.len() == 0 {
        seq![]
    } else {
        "/"@ + tail
    };
    if query.len() == 0 {
        upstream + path
    } else {
        upstream + path + "?"@ + query
    }
}

/// The URL that a request for `tail` with query `query` goes to on
/// `upstream`.
pub fn upstream_url(upstream: &str, tail: &str, query: &str) -> (r: String)
    ensures
        r@ == spec_upstream_url(upstream@, tail@, query@),
{
    let mut url = String::from_str(upstream);
    if !tail.is_empty() {
        url = url.concat("/").concat(tail);
    }
    if !query.is_empty() {
        url = url.concat("?").concat(query);
    }
    url
}

/// Whether a request header named `name` (lower case, as `HeaderName`
/// writes it) is passed to the upstream: all but `host`.
pub fn forward_request_header(name: &str) -> (r: bool)
    ensures
        r == (name@ != "host"@),
{
    !str_eq(name, "host")
}

/// Whether a header named `name` of the upstream's reply is passed back to
/// the client: all but `transfer-encoding`.
pub fn forward_response_header(name: &str) -> (r: bool)
    ensures
        r == (name@ != "transfer-encoding"@),
{
    !str_eq(name, "transfer-encoding")
}

} // verus!
