//! The status page of Mina nodes: what a node's status text says of its
//! sync state and of its last proof time, as colours.
use crate::num::{parse_u64, spec_parse_u64};
use crate::text::{is_white, str_chars, str_eq, white};
use vstd::prelude::*;
use vstd::utf8::encode_utf8;

verus! {

/// The pieces of `s` between white space characters, empty ones included.
pub open spec fn split_white(s: Seq<char>) -> Seq<Seq<char>>
    decreases s.len(),
{
    if s.len() == 0 {
        seq![seq![]]
    } else {
        let r = split_white(s.drop_last());
        if is_white(s.last()) {
            r.push(seq![])
        } else {
            r.update(r.len() - 1, r.last().push(s.last()))
        }
    }
}

/// The non-empty elements of `s`, in order.
pub open spec fn non_empty_words(s: Seq<Seq<char>>) -> Seq<Seq<char>>
    decreases s.len(),
{
    if s.len() == 0 {
        s
    } else if s.last().len() == 0 {
        non_empty_words(s.drop_last())
    } else {
        non_empty_words(s.drop_last()).push(s.last())
    }
}

/// The words of `s`, as `str::split_whitespace` gives them.
pub open spec fn spec_words(s: Seq<char>) -> Seq<Seq<char>> {
    non_empty_words(split_white(s))
}

proof fn lemma_split_white_len(s: Seq<char>)
    ensures
        split_white(s).len() >= 1,
    decreases s.len(),
{
    if s.len() > 0 {
        lemma_split_white_len(s.drop_last());
    }
}

/// The views of some strings.
pub open spec fn word_views(v: Seq<String>) -> Seq<Seq<char>> {
    v.map_values(|w: String| w@)
}

/// The words of `s`, as `str::split_whitespace` gives them.
pub fn words(s: &str) -> (r: Vec<String>)
    ensures
        word_views(r@) == spec_words(s@),
{
    let cs = str_chars(s);
    let n = cs.len();
    let mut out: Vec<String> = Vec::new();
    let mut start: usize = 0;
    let ghost mut done: Seq<Seq<char>> = seq![];
    proof {
        assert(s@.take(0) =~= Seq::<char>::empty());
        assert(s@.subrange(0, 0) =~= Seq::<char>::empty());
        assert(done.push(Seq::<char>::empty()) =~= seq![Seq::<char>::empty()]);
    }
    for i in 0..n
        invariant
            n == s@.len(),
            cs@ == s@,
            start <= i,
            split_white(s@.take(i as int)) == done.push(s@.subrange(start as int, i as int)),
            word_views(out@) == non_empty_words(done),
    {
        let ghost p1 = s@.take(i + 1);
        proof {
            assert(p1.drop_last() =~= s@.take(i as int));
            assert(p1.last() == s@[i as int]);
            lemma_split_white_len(s@.take(i as int));
        }
        if white(cs[i]) {
            let ghost piece = s@.subrange(start as int, i as int);
            if start < i {
                let w = s.substring_char(start, i);
                let ghost prev = out@;
                out.push(String::from_str(w));
                assert(word_views(out@) =~= word_views(prev).push(piece));
            }
            proof {
                let old_done = done;
                done = done.push(piece);
                assert(done.drop_last() =~= old_done);
                assert(s@.subrange(i + 1, i + 1) =~= Seq::<char>::empty());
                assert(split_white(p1) =~= done.push(s@.subrange(i + 1, i + 1)));
            }
            start = i + 1;
        } else {
            proof {
                assert(s@.subrange(start as int, i + 1) =~= s@.subrange(start as int, i as int).push(
                    s@[i as int],
                ));
                assert(split_white(p1) =~= done.push(s@.subrange(start as int, i + 1)));
            }
        }
    }
    let ghost last_piece = s@.subrange(start as int, n as int);
    proof {
        assert(s@.take(n as int) =~= s@);
    }
    if start < n {
        let w = s.substring_char(start, n);
        let ghost prev = out@;
        out.push(String::from_str(w));
        assert(word_views(out@) =~= word_views(prev).push(last_piece));
    }
    proof {
        assert(done.push(last_piece).drop_last() =~= done);
    }
    out
}

/// `w` without its trailing commas, as `str::trim_end_matches(',')` gives it.
pub open spec fn trim_commas(w: Seq<char>) -> Seq<char>
    decreases w.len(),
{
    if w.len() > 0 && w.last() == ',' {
        trim_commas(w.drop_last())
    } else {
        w
    }
}

/// The colours of the status page.
#[derive(Clone, Copy, Debug, PartialEq, Eq, Structural)]
pub enum Color {
    Green,
    Yellow,
    Red,
    Unknown,
}

impl Color {
    /// The colour's name, the CSS class of the page.
    pub fn name(self) -> (r: &'static str)
        ensures
            r@ == (match self {
                Color::Green => "green"@,
                Color::Yellow => "yellow"@,
                Color::Red => "red"@,
                Color::Unknown => "unknown"@,
            }),
    {
        match self {
            Color::Green => "green",
            Color::Yellow => "yellow",
            Color::Red => "red",
            Color::Unknown => "unknown",
        }
    }
}

/// The colour of a sync state: green when synced, yellow when catching up,
/// unknown otherwise.
pub open spec fn spec_synced_color(state: Seq<char>) -> Color {
    if state == "Synced"@ {
        Color::Green
    } else if state == "Catchup"@ {
        Color::Yellow
    } else {
        Color::Unknown
    }
}

/// The first proof time in the words `ws`: the number after a word `time`,
/// the word after a `time` that is no number being passed over with it.
pub open spec fn spec_proof_time(ws: Seq<Seq<char>>) -> Option<u64>
    decreases ws.len(),
{
    if ws.len() == 0 {
        None
    } else if ws[0] == "time"@ {
        if ws.len() >= 2 {
            match spec_parse_u64(encode_utf8(ws[1]), 10) {
                Some(t) => Some(t),
                None => spec_proof_time(ws.subrange(2, ws.len() as int)),
            }
        } else {
            None
        }
    } else {
        spec_proof_time(ws.drop_first())
    }
}

/// The colour of a last proof time, in milliseconds: green below 100000,
/// yellow below 150000, red otherwise, and unknown without one.
pub open spec fn spec_proof_color(t: Option<u64>) -> Color {
    match t {
        Some(t) => if t < 100000 {
            Color::Green
        } else if t < 150000 {
            Color::Yellow
        } else {
            Color::Red
        },
        None => Color::Unknown,
    }
}

/// The colour of a node: red when either colour is red, else yellow when
/// either is yellow, else green.
pub open spec fn spec_overall(synced: Color, proof: Color) -> Color {
    if synced == Color::Red || proof == Color::Red {
        Color::Red
    } else if synced == Color::Yellow || proof == Color::Yellow {
        Color::Yellow
    } else {
        Color::Green
    }
}

/// What a node's status text says: the colour of its sync state (its first
/// word without trailing commas), of its last proof time, and of the node.
pub open spec fn spec_status_colors(status: Seq<char>) -> (Color, Color, Color) {
    let ws = spec_words(status);
    let synced = if ws.len() > 0 {
        spec_synced_color(trim_commas(ws[0]))
    } else {
        Color::Unknown
    };
    let rest = if ws.len() > 0 {
        ws.drop_first()
    } else {
        ws
    };
    let proof = spec_proof_color(spec_proof_time(rest));
    (synced, proof, spec_overall(synced, proof))
}

/// The length of `w` without its trailing commas.
fn trimmed_len(w: &Vec<char>) -> (r: usize)
    ensures
        r <= w@.len(),
        trim_commas(w@) == w@.take(r as int),
{
    let mut k = w.len();
    assert(w@.take(k as int) =~= w@);
    while k > 0 && w[k - 1] == ','
        invariant
            k <= w@.len(),
            trim_commas(w@) == trim_commas(w@.take(k as int)),
        decreases k,
    {
        proof {
            assert(w@.take(k as int).drop_last() =~= w@.take(k - 1));
        }
        k = k - 1;
    }
    proof {
        assert(w@.take(w@.len() as int) =~= w@);
    }
    k
}

/// The colour of a sync state word.
fn synced_color(word: &str) -> (r: Color)
    ensures
        r == spec_synced_color(trim_commas(word@)),
{
    let cs = str_chars(word);
    let k = trimmed_len(&cs);
    let state = word.substring_char(0, k);
    if str_eq(state, "Synced") {
        Color::Green
    } else if str_eq(state, "Catchup") {
        Color::Yellow
    } else {
        Color::Unknown
    }
}

/// What a node's status text says, as colours.
pub fn status_colors(status: &str) -> (r: (Color, Color, Color))
    ensures
        r == spec_status_colors(status@),
{
    let ws = words(status);
    let n = ws.len();
    let synced = if n > 0 {
        synced_color(ws[0].as_str())
    } else {
        Color::Unknown
    };
    let ghost all = word_views(ws@);
    let ghost rest = if n > 0 {
        all.drop_first()
    } else {
        all
    };
    let mut i: usize = if n > 0 {
        1
    } else {
        0
    };
    let mut time: Option<u64> = None;
    proof {
        assert(all.subrange(i as int, n as int) =~= rest);
    }
    while i < n
        invariant_except_break
            time is None,
            spec_proof_time(rest) == spec_proof_time(all.subrange(i as int, n as int)),
        invariant
            n == ws@.len(),
            all == word_views(ws@),
            i <= n,
        ensures
            spec_proof_time(rest) == (match time {
                Some(t) => Some(t),
                None => spec_proof_time(all.subrange(i as int, n as int)),
            }),
            time is None ==> i >= n,
        decreases n - i,
    {
        let ghost cur = all.subrange(i as int, n as int);
        proof {
            assert(cur[0] == ws@[i as int]@);
        }
        if str_eq(ws[i].as_str(), "time") {
            if i + 1 < n {
                proof {
                    assert(cur[1] == ws@[i + 1]@);
                }
                match parse_u64(ws[i + 1].as_str(), 10) {
                    Some(t) => {
                        time = Some(t);
                        break;
                    },
                    None => {
                        proof {
                            assert(cur.subrange(2, cur.len() as int) =~= all.subrange(i + 2, n as int));
                        }
                        i = i + 2;
                    },
                }
            } else {
                i = n;
                proof {
                    assert(all.subrange(i as int, n as int) =~= Seq::<Seq<char>>::empty());
                }
            }
        } else {
            proof {
                assert(cur.drop_first() =~= all.subrange(i + 1, n as int));
            }
            i = i + 1;
        }
    }
    proof {
        if time is None {
            assert(all.subrange(i as int, n as int) =~= Seq::<Seq<char>>::empty());
        }
    }
    let proof_color = match time {
        Some(t) => {
            if t < 100000 {
                Color::Green
            } else if t < 150000 {
                Color::Yellow
            } else {
                Color::Red
            }
        },
        None => Color::Unknown,
    };
    let mut color = Color::Green;
    if synced == Color::Yellow || proof_color == Color::Yellow {
        color = Color::Yellow;
    }
    if synced == Color::Red || proof_color == Color::Red {
        color = Color::Red;
    }
    (synced, proof_color, color)
}

/// Whether a status file modified `elapsed_secs` seconds ago is fresh: at
/// most a minute old.
pub fn is_fresh(elapsed_secs: u64) -> (r: bool)
    ensures
        r == (elapsed_secs <= 60),
{
    elapsed_secs <= 60
}

/// The node's colour follows its two parts: red if the sync state or the
/// proof time is red, else yellow if either is yellow, else green; in
/// particular a yellow part never gives a green node.
pub proof fn lemma_node_colour(status: Seq<char>)
    ensures
        ({
            let r = spec_status_colors(status);
            &&& (r.0 == Color::Red || r.1 == Color::Red) ==> r.2 == Color::Red
            &&& r.0 != Color::Red && r.1 != Color::Red && (r.0 == Color::Yellow || r.1 == Color::Yellow)
                ==> r.2 == Color::Yellow
            &&& r.0 != Color::Red && r.1 != Color::Red && r.0 != Color::Yellow && r.1 != Color::Yellow
                ==> r.2 == Color::Green
        }),
{
}

/// The colour thresholds: a proof time below 100000 ms is green, from 100000
/// to below 150000 yellow, from 150000 on red, and none unknown; a sync state
/// is green exactly when it reads `Synced` and yellow exactly when it reads
/// `Catchup`.
pub proof fn lemma_colour_thresholds(t: u64, state: Seq<char>)
    ensures
        spec_proof_color(Some(t)) == Color::Green <==> t < 100000,
        spec_proof_color(Some(t)) == Color::Yellow <==> 100000 <= t < 150000,
        spec_proof_color(Some(t)) == Color::Red <==> t >= 150000,
        spec_proof_color(None) == Color::Unknown,
        spec_synced_color(state) == Color::Green <==> state == "Synced"@,
        spec_synced_color(state) == Color::Yellow <==> state == "Catchup"@,
        spec_synced_color(state) != Color::Red,
{
    reveal_strlit("Synced");
    reveal_strlit("Catchup");
    assert("Synced"@.len() != "Catchup"@.len());
}

} // verus!
