//! Parsing of the `VK_NEXT:` marker that agents put in their final message, and the
//! prompt that starts an automated continuation turn.
use vstd::prelude::*;

use crate::paths::split_on;
use crate::text::{
    first_index_of, lemma_first_index_of, lemma_first_index_of_is, trim_end,
    blank, decimal, is_blank, push_decimal, push_str, trimmed,
    chars_of, eq_ignore_ascii_case, first_ws_index, is_whitespace, is_ws, join, lemma_first_ws_index_is,
    line_ranges, lines, lower_code, lower_codes, range_eq, string_from_range, trim, trim_range,
    trim_start, trim_start_range,
};

verus! {

/// What the agent asked for after its turn.
#[derive(Clone, Copy, Debug, PartialEq, Eq, Structural)]
pub enum VkNextAction {
    Continue,
    Review,
}

/// Outcome of looking for a `VK_NEXT:` marker.
#[derive(Clone, Debug, PartialEq, Eq)]
pub enum VkNextParseResult {
    Parsed(VkNextAction),
    Missing,
    Invalid { raw: String },
}

/// Outcome of marker parsing over character sequences.
pub enum NextMarker {
    Parsed(VkNextAction),
    Missing,
    Invalid(Seq<char>),
}

impl View for VkNextParseResult {
    type V = NextMarker;

    open spec fn view(&self) -> NextMarker {
        match self {
            VkNextParseResult::Parsed(a) => NextMarker::Parsed(*a),
            VkNextParseResult::Missing => NextMarker::Missing,
            VkNextParseResult::Invalid { raw } => NextMarker::Invalid(raw@),
        }
    }
}

/// The marker prefix, compared without regard to ASCII case.
pub const VK_NEXT_PREFIX: &'static str = "vk_next:";

/// A line with surrounding whitespace and one leading list bullet (`-` or `*`) removed.
pub open spec fn marker_body(line: Seq<char>) -> Seq<char> {
    let t = trim(line);
    if t.len() > 0 && (t[0] == '-' || t[0] == '*') {
        trim_start(t.drop_first())
    } else {
        t
    }
}

/// The line carries a `VK_NEXT:` marker: its body starts with the prefix, ignoring ASCII case.
pub open spec fn is_marker(line: Seq<char>) -> bool {
    let b = marker_body(line);
    b.len() >= VK_NEXT_PREFIX@.len() && eq_ignore_ascii_case(
        b.take(VK_NEXT_PREFIX@.len() as int),
        VK_NEXT_PREFIX@,
    )
}

/// The word after the marker: the trimmed rest of the body up to its first whitespace.
pub open spec fn marker_value(line: Seq<char>) -> Seq<char> {
    let rest = trim(marker_body(line).skip(VK_NEXT_PREFIX@.len() as int));
    rest.take(first_ws_index(rest))
}

/// The outcome that a marker line gives.
pub open spec fn marker_outcome(line: Seq<char>) -> NextMarker {
    let v = marker_value(line);
    if v == "continue"@ {
        NextMarker::Parsed(VkNextAction::Continue)
    } else if v == "review"@ {
        NextMarker::Parsed(VkNextAction::Review)
    } else {
        NextMarker::Invalid(v)
    }
}

/// The first marker line decides; without one the marker is missing.
pub open spec fn parse_marker_lines(ls: Seq<Seq<char>>) -> NextMarker
    decreases ls.len(),
{
    if ls.len() == 0 {
        NextMarker::Missing
    } else if is_marker(ls[0]) {
        marker_outcome(ls[0])
    } else {
        parse_marker_lines(ls.drop_first())
    }
}

/// Result of `parse_vk_next_action_detailed` on a text.
pub open spec fn spec_parse_vk_next(text: Seq<char>) -> NextMarker {
    parse_marker_lines(lines(text))
}

/// Text of `strip_vk_next_lines`: the non-marker lines, joined by newlines, trimmed.
pub open spec fn spec_strip_vk_next(text: Seq<char>) -> Seq<char> {
    trim(join(lines(text).filter(|l: Seq<char>| !is_marker(l)), "\n"@))
}

fn lower_code_of(c: char) -> (r: u32)
    ensures
        r == lower_code(c),
{
    if 'A' <= c && c <= 'Z' {
        c as u32 + 32
    } else {
        c as u32
    }
}

/// Start of the marker body of the line `v[a..b]`, and its end.
fn marker_body_range(v: &Vec<char>, a: usize, b: usize) -> (r: (usize, usize))
    requires
        a <= b <= v.len(),
    ensures
        a <= r.0 <= r.1 <= b,
        v@.subrange(r.0 as int, r.1 as int) == marker_body(v@.subrange(a as int, b as int)),
{
    let (ta, tb) = trim_range(v, a, b);
    if ta < tb && (v[ta] == '-' || v[ta] == '*') {
        let ba = trim_start_range(v, ta + 1, tb);
        proof {
            assert(v@.subrange(ta as int, tb as int).drop_first() =~= v@.subrange(
                ta + 1,
                tb as int,
            ));
        }
        (ba, tb)
    } else {
        (ta, tb)
    }
}

/// Whether the body `v[ba..bb]` starts with the marker prefix, ignoring ASCII case.
fn body_is_marker(v: &Vec<char>, ba: usize, bb: usize, prefix: &Vec<char>) -> (r: bool)
    requires
        ba <= bb <= v.len(),
        prefix@ == VK_NEXT_PREFIX@,
    ensures
        r == {
            let body = v@.subrange(ba as int, bb as int);
            body.len() >= VK_NEXT_PREFIX@.len() && eq_ignore_ascii_case(
                body.take(VK_NEXT_PREFIX@.len() as int),
                VK_NEXT_PREFIX@,
            )
        },
{
    let ghost body = v@.subrange(ba as int, bb as int);
    let n = prefix.len();
    if bb - ba < n {
        return false;
    }
    let mut i: usize = 0;
    while i < n
        invariant
            ba <= bb <= v.len(),
            n == prefix.len(),
            prefix@ == VK_NEXT_PREFIX@,
            bb - ba >= n,
            i <= n,
            body == v@.subrange(ba as int, bb as int),
            forall|j: int| 0 <= j < i ==> lower_code(v@[ba + j]) == lower_code(prefix@[j]),
        decreases n - i,
    {
        if lower_code_of(v[ba + i]) != lower_code_of(prefix[i]) {
            proof {
                assert(lower_codes(body.take(n as int))[i as int] != lower_codes(prefix@)[i as int]);
            }
            return false;
        }
        i = i + 1;
    }
    proof {
        assert(lower_codes(body.take(n as int)) =~= lower_codes(prefix@));
    }
    true
}

/// Index of the first whitespace character in `v[a..b]`, or `b`.
fn first_ws_in(v: &Vec<char>, a: usize, b: usize) -> (r: usize)
    requires
        a <= b <= v.len(),
    ensures
        a <= r <= b,
        r - a == first_ws_index(v@.subrange(a as int, b as int)),
{
    let mut i = a;
    while i < b && !is_whitespace(v[i])
        invariant
            a <= i <= b <= v.len(),
            forall|j: int| a <= j < i ==> !is_ws(v@[j]),
        decreases b - i,
    {
        i = i + 1;
    }
    proof {
        lemma_first_ws_index_is(v@.subrange(a as int, b as int), i - a);
    }
    i
}

/// Whether the line `v[a..b]` is a marker line.
fn line_is_marker(v: &Vec<char>, a: usize, b: usize, prefix: &Vec<char>) -> (r: bool)
    requires
        a <= b <= v.len(),
        prefix@ == VK_NEXT_PREFIX@,
    ensures
        r == is_marker(v@.subrange(a as int, b as int)),
{
    let (ba, bb) = marker_body_range(v, a, b);
    body_is_marker(v, ba, bb, prefix)
}

/// Looks for the first `VK_NEXT:` line (optionally behind a `-` or `*` bullet, prefix in any
/// ASCII case) and reads the word after it: `continue`, `review`, or anything else as invalid.
pub fn parse_vk_next_action_detailed(text: &str) -> (res: VkNextParseResult)
    ensures
        res@ == spec_parse_vk_next(text@),
{
    let v = chars_of(text);
    let prefix = chars_of(VK_NEXT_PREFIX);
    let word_continue = chars_of("continue");
    let word_review = chars_of("review");
    let ranges = line_ranges(&v);
    let ghost ls = lines(v@);
    let mut i: usize = 0;
    proof {
        assert(ls.skip(0) =~= ls);
    }
    while i < ranges.len()
        invariant
            ranges.len() == ls.len(),
            ls == lines(v@),
            v@ == text@,
            prefix@ == VK_NEXT_PREFIX@,
            word_continue@ == "continue"@,
            word_review@ == "review"@,
            forall|k: int|
                0 <= k < ranges.len() ==> {
                    &&& (#[trigger] ranges@[k]).0 <= ranges@[k].1 <= v.len()
                    &&& v@.subrange(ranges@[k].0 as int, ranges@[k].1 as int) == ls[k]
                },
            i <= ranges.len(),
            parse_marker_lines(ls) == parse_marker_lines(ls.skip(i as int)),
        decreases ranges.len() - i,
    {
        let (a, b) = ranges[i];
        proof {
            assert(ls.skip(i as int)[0] == ls[i as int]);
        }
        if line_is_marker(&v, a, b, &prefix) {
            let (ba, bb) = marker_body_range(&v, a, b);
            let (ra, rb) = trim_range(&v, ba + prefix.len(), bb);
            let we = first_ws_in(&v, ra, rb);
            proof {
                let body = v@.subrange(ba as int, bb as int);
                assert(body.skip(VK_NEXT_PREFIX@.len() as int) =~= v@.subrange(
                    ba + prefix.len(),
                    bb as int,
                ));
                let rest = v@.subrange(ra as int, rb as int);
                assert(rest.take(we - ra) =~= v@.subrange(ra as int, we as int));
                assert(marker_value(ls[i as int]) == v@.subrange(ra as int, we as int));
            }
            if range_eq(&v, ra, we, &word_continue) {
                return VkNextParseResult::Parsed(VkNextAction::Continue);
            } else if range_eq(&v, ra, we, &word_review) {
                return VkNextParseResult::Parsed(VkNextAction::Review);
            } else {
                let raw = string_from_range(&v, ra, we);
                return VkNextParseResult::Invalid { raw };
            }
        }
        proof {
            assert(ls.skip(i as int).drop_first() =~= ls.skip(i + 1));
        }
        i = i + 1;
    }
    VkNextParseResult::Missing
}

/// The requested action, when a valid `VK_NEXT:` marker is present.
pub fn parse_vk_next_action(text: &str) -> (res: Option<VkNextAction>)
    ensures
        res == (match spec_parse_vk_next(text@) {
            NextMarker::Parsed(a) => Some(a),
            _ => None,
        }),
{
    match parse_vk_next_action_detailed(text) {
        VkNextParseResult::Parsed(action) => Some(action),
        _ => None,
    }
}

/// Removes every `VK_NEXT:` line, joins the remaining lines with `\n` and trims the result.
pub fn strip_vk_next_lines(text: &str) -> (res: String)
    ensures
        res@ == spec_strip_vk_next(text@),
{
    let v = chars_of(text);
    let prefix = chars_of(VK_NEXT_PREFIX);
    let ranges = line_ranges(&v);
    let ghost ls = lines(v@);
    let ghost keep = |l: Seq<char>| !is_marker(l);
    let mut out: Vec<char> = Vec::new();
    let mut kept: usize = 0;
    let mut i: usize = 0;
    while i < ranges.len()
        invariant
            ranges.len() == ls.len(),
            ls == lines(v@),
            prefix@ == VK_NEXT_PREFIX@,
            keep == (|l: Seq<char>| !is_marker(l)),
            forall|k: int|
                0 <= k < ranges.len() ==> {
                    &&& (#[trigger] ranges@[k]).0 <= ranges@[k].1 <= v.len()
                    &&& v@.subrange(ranges@[k].0 as int, ranges@[k].1 as int) == ls[k]
                },
            i <= ranges.len(),
            kept == ls.take(i as int).filter(keep).len(),
            out@ == join(ls.take(i as int).filter(keep), "\n"@),
        decreases ranges.len() - i,
    {
        let (a, b) = ranges[i];
        let ghost before = ls.take(i as int).filter(keep);
        proof {
            reveal_with_fuel(Seq::<_>::filter, 1);
            assert(ls.take(i + 1).drop_last() =~= ls.take(i as int));
            assert(ls.take(i + 1).last() == ls[i as int]);
        }
        if !line_is_marker(&v, a, b, &prefix) {
            let ghost after = before.push(ls[i as int]);
            if kept > 0 {
                out.push('\n');
            }
            let mut j = a;
            let ghost base = out@;
            while j < b
                invariant
                    a <= j <= b <= v.len(),
                    out@ == base + v@.subrange(a as int, j as int),
                decreases b - j,
            {
                out.push(v[j]);
                proof {
                    assert(v@.subrange(a as int, j + 1) =~= v@.subrange(a as int, j as int).push(
                        v@[j as int],
                    ));
                }
                j = j + 1;
            }
            proof {
                assert(after.drop_last() =~= before);
                if kept > 0 {
                    reveal_strlit("\n");
                    assert(join(after, "\n"@) == join(before, "\n"@) + "\n"@ + ls[i as int]);
                    assert(out@ =~= join(before, "\n"@) + "\n"@ + ls[i as int]);
                } else {
                    assert(before.len() == 0);
                    assert(out@ =~= ls[i as int]);
                }
            }
            kept = kept + 1;
        }
        i = i + 1;
    }
    proof {
        assert(ls.take(ranges.len() as int) =~= ls);
    }
    let (a, b) = trim_range(&out, 0, out.len());
    proof {
        assert(out@.subrange(0, out@.len() as int) =~= out@);
    }
    string_from_range(&out, a, b)
}

/// Opening of the continuation prompt, before the number of remaining turns.
pub const PROMPT_HEAD: &'static str = "This is an automated continuation turn for the same Vibe Kanban task session.\nRemaining continuation turns after this one: ";

/// Text between the number of remaining turns and the previous summary.
pub const PROMPT_SUMMARY_HEADING: &'static str = "\n\nPrevious turn summary:\n";

/// Closing instructions of the continuation prompt.
pub const PROMPT_INSTRUCTIONS: &'static str = "\n\nInstructions:\n1. Continue from the current workspace state. Do not restate the original task prompt.\n2. Focus only on the remaining work needed to reach a review-ready or terminal state.\n3. Do the smallest convincing validation for your new changes.\n4. In your final assistant message, include exactly one line:\nVK_NEXT: continue\nor\nVK_NEXT: review\nPut the VK_NEXT line near the top of your final message so it is easy to parse.";

/// Summary used when the previous turn left none.
pub const NO_SUMMARY: &'static str = "No summary available from the previous turn.";

/// The summary that the prompt quotes: the trimmed previous summary, or a fixed note when
/// there is none or it is blank.
pub open spec fn prompt_summary(previous_summary: Option<Seq<char>>) -> Seq<char> {
    match previous_summary {
        Some(s) if !is_blank(s) => trim(s),
        _ => NO_SUMMARY@,
    }
}

/// The continuation prompt for a number of remaining turns (negative counts read as zero).
pub open spec fn spec_continuation_prompt(previous_summary: Option<Seq<char>>, remaining_turns: int) -> Seq<char> {
    let n: nat = if remaining_turns < 0 { 0 } else { remaining_turns as nat };
    PROMPT_HEAD@ + decimal(n) + PROMPT_SUMMARY_HEADING@ + prompt_summary(previous_summary)
        + PROMPT_INSTRUCTIONS@
}

/// Builds the prompt of an automated continuation turn.
pub fn build_turn_continuation_prompt(previous_summary: Option<&str>, remaining_turns: i32) -> (res: String)
    ensures
        res@ == spec_continuation_prompt(
            match previous_summary {
                Some(s) => Some(s@),
                None => None,
            },
            remaining_turns as int,
        ),
{
    let remaining: u64 = if remaining_turns < 0 {
        0
    } else {
        remaining_turns as u64
    };
    let mut out = String::new();
    push_str(&mut out, PROMPT_HEAD);
    push_decimal(&mut out, remaining);
    push_str(&mut out, PROMPT_SUMMARY_HEADING);
    match previous_summary {
        Some(s) => {
            if blank(s) {
                push_str(&mut out, NO_SUMMARY);
            } else {
                let t = trimmed(s);
                push_str(&mut out, t.as_str());
            }
        },
        None => {
            push_str(&mut out, NO_SUMMARY);
        },
    }
    push_str(&mut out, PROMPT_INSTRUCTIONS);
    proof {
        assert(out@ =~= spec_continuation_prompt(
            match previous_summary {
                Some(s) => Some(s@),
                None => None,
            },
            remaining_turns as int,
        ));
    }
    out
}

proof fn lemma_trim_drop_first(p: Seq<char>)
    requires
        p.len() > 0,
        is_ws(p[0]),
    ensures
        trim(p.drop_first()) == trim(p),
{
}

proof fn lemma_trim_drop_last(p: Seq<char>)
    requires
        p.len() > 0,
        is_ws(p.last()),
    ensures
        trim(p.drop_last()) == trim(p),
    decreases p.len(),
{
    let q = p.drop_last();
    if is_ws(p[0]) {
        if p.len() > 1 {
            let d = p.drop_first();
            assert(d.last() == p.last());
            lemma_trim_drop_last(d);
            assert(q.drop_first() =~= d.drop_last());
            assert(q[0] == p[0]);
            assert(trim_start(q) == trim_start(q.drop_first()));
            assert(trim_start(p) == trim_start(d));
        } else {
            assert(q.len() == 0);
            assert(p.drop_first().len() == 0);
            assert(trim_start(p) == trim_start(p.drop_first()));
            assert(trim_start(p.drop_first()) == p.drop_first());
        }
    } else {
        assert(p.len() > 1);
        assert(q[0] == p[0]);
        assert(trim_start(q) == q);
        assert(trim_start(p) == p);
        assert(trim_end(p) == trim_end(q));
    }
}

/// A line's marker status depends only on its trimmed text.
proof fn lemma_marker_by_trim(a: Seq<char>, b: Seq<char>)
    requires
        trim(a) == trim(b),
    ensures
        is_marker(a) == is_marker(b),
{
}

/// The pieces of a text between newlines, none of them a marker line.
pub open spec fn unmarked_pieces(x: Seq<char>) -> bool {
    forall|i: int| 0 <= i < split_on(x, '\n').len() ==> !is_marker(#[trigger] split_on(x, '\n')[i])
}

proof fn lemma_split_nonempty(x: Seq<char>, c: char)
    ensures
        split_on(x, c).len() >= 1,
    decreases x.len(),
{
    lemma_first_index_of(x, c);
    let k = first_index_of(x, c);
    if k < x.len() {
        lemma_split_nonempty(x.skip(k + 1), c);
    }
}

proof fn lemma_split_concat(x: Seq<char>, y: Seq<char>, c: char)
    ensures
        split_on(x + seq![c] + y, c) == split_on(x, c) + split_on(y, c),
    decreases x.len(),
{
    let z = x + seq![c] + y;
    lemma_first_index_of(x, c);
    lemma_first_index_of(z, c);
    let k = first_index_of(x, c);
    if k >= x.len() {
        lemma_first_index_of_is(z, c, x.len() as int);
        assert(z.take(x.len() as int) =~= x);
        assert(z.skip(x.len() + 1int) =~= y);
    } else {
        assert forall|j: int| 0 <= j < k implies z[j] != c by {
            assert(z[j] == x[j]);
        }
        lemma_first_index_of_is(z, c, k);
        assert(z.take(k) =~= x.take(k));
        assert(z.skip(k + 1) =~= x.skip(k + 1) + seq![c] + y);
        lemma_split_concat(x.skip(k + 1), y, c);
        assert(seq![x.take(k)] + (split_on(x.skip(k + 1), c) + split_on(y, c)) =~= (seq![x.take(k)]
            + split_on(x.skip(k + 1), c)) + split_on(y, c));
    }
}

proof fn lemma_split_push(y: Seq<char>, w: char, c: char)
    requires
        w != c,
    ensures
        split_on(y, c).len() >= 1,
        split_on(y.push(w), c) == split_on(y, c).update(
            split_on(y, c).len() - 1,
            split_on(y, c).last().push(w),
        ),
    decreases y.len(),
{
    lemma_split_nonempty(y, c);
    let z = y.push(w);
    lemma_first_index_of(y, c);
    let k = first_index_of(y, c);
    if k >= y.len() {
        assert forall|j: int| 0 <= j < y.len() + 1 implies z[j] != c by {
            if j < y.len() {
                assert(z[j] == y[j]);
            }
        }
        lemma_first_index_of_is(z, c, z.len() as int);
    } else {
        assert forall|j: int| 0 <= j < k implies z[j] != c by {
            assert(z[j] == y[j]);
        }
        lemma_first_index_of_is(z, c, k);
        assert(z.take(k) =~= y.take(k));
        assert(z.skip(k + 1) =~= y.skip(k + 1).push(w));
        lemma_split_push(y.skip(k + 1), w, c);
        lemma_split_nonempty(y.skip(k + 1), c);
        let r = split_on(y.skip(k + 1), c);
        assert(seq![y.take(k)] + r.update(r.len() - 1, r.last().push(w)) =~= (seq![y.take(k)] + r).update(
            r.len() as int,
            r.last().push(w),
        ));
    }
}

proof fn lemma_unmarked_trim_start(x: Seq<char>)
    requires
        unmarked_pieces(x),
    ensures
        unmarked_pieces(trim_start(x)),
    decreases x.len(),
{
    if x.len() > 0 && is_ws(x[0]) {
        let d = x.drop_first();
        if x[0] == '\n' {
            assert(x =~= Seq::<char>::empty() + seq!['\n'] + d);
            lemma_split_concat(Seq::<char>::empty(), d, '\n');
            assert forall|i: int| 0 <= i < split_on(d, '\n').len() implies !is_marker(#[trigger] split_on(d, '\n')[i]) by {
                assert(split_on(x, '\n')[i + 1] == split_on(d, '\n')[i]);
            }
        } else {
            lemma_first_index_of(x, '\n');
            lemma_first_index_of(d, '\n');
            let k = first_index_of(x, '\n');
            assert(first_index_of(d, '\n') == k - 1);
            assert forall|i: int| 0 <= i < split_on(d, '\n').len() implies !is_marker(#[trigger] split_on(d, '\n')[i]) by {
                if k >= x.len() {
                    lemma_trim_drop_first(x);
                    lemma_marker_by_trim(d, x);
                    assert(split_on(x, '\n')[0] == x);
                } else {
                    assert(d.take(k - 1) =~= x.take(k).drop_first());
                    assert(d.skip(k) =~= x.skip(k + 1));
                    if i == 0 {
                        lemma_trim_drop_first(x.take(k));
                        lemma_marker_by_trim(d.take(k - 1), x.take(k));
                        assert(split_on(x, '\n')[0] == x.take(k));
                    } else {
                        assert(split_on(d, '\n')[i] == split_on(x, '\n')[i]);
                    }
                }
            }
        }
        lemma_unmarked_trim_start(d);
    }
}

proof fn lemma_unmarked_trim_end(x: Seq<char>)
    requires
        unmarked_pieces(x),
    ensures
        unmarked_pieces(trim_end(x)),
    decreases x.len(),
{
    if x.len() > 0 && is_ws(x.last()) {
        let d = x.drop_last();
        if x.last() == '\n' {
            assert(x =~= d + seq!['\n'] + Seq::<char>::empty());
            lemma_split_concat(d, Seq::<char>::empty(), '\n');
            assert forall|i: int| 0 <= i < split_on(d, '\n').len() implies !is_marker(#[trigger] split_on(d, '\n')[i]) by {
                assert(split_on(x, '\n')[i] == split_on(d, '\n')[i]);
            }
        } else {
            assert(x =~= d.push(x.last()));
            lemma_split_push(d, x.last(), '\n');
            let sd = split_on(d, '\n');
            assert forall|i: int| 0 <= i < sd.len() implies !is_marker(#[trigger] sd[i]) by {
                if i == sd.len() - 1 {
                    let p = sd.last().push(x.last());
                    assert(split_on(x, '\n')[i] == p);
                    assert(p.drop_last() =~= sd.last());
                    lemma_trim_drop_last(p);
                    lemma_marker_by_trim(sd[i], p);
                } else {
                    assert(split_on(x, '\n')[i] == sd[i]);
                }
            }
        }
        lemma_unmarked_trim_end(d);
    }
}

proof fn lemma_split_join(f: Seq<Seq<char>>)
    requires
        f.len() > 0,
        forall|i: int| 0 <= i < f.len() ==> !(#[trigger] f[i]).contains('\n'),
    ensures
        split_on(join(f, seq!['\n']), '\n') == f,
    decreases f.len(),
{
    if f.len() == 1 {
        lemma_first_index_of(f[0], '\n');
        if first_index_of(f[0], '\n') < f[0].len() {
            assert(f[0].contains('\n'));
        }
        assert(split_on(f[0], '\n') =~= f);
    } else {
        let d = f.drop_last();
        assert forall|i: int| 0 <= i < d.len() implies !(#[trigger] d[i]).contains('\n') by {
            assert(d[i] == f[i]);
        }
        lemma_split_join(d);
        lemma_split_concat(join(d, seq!['\n']), f.last(), '\n');
        lemma_first_index_of(f.last(), '\n');
        if first_index_of(f.last(), '\n') < f.last().len() {
            assert(f.last().contains('\n'));
        }
        assert(join(f, seq!['\n']) == join(d, seq!['\n']) + seq!['\n'] + f.last());
        assert(d + seq![f.last()] =~= f);
    }
}

proof fn lemma_lines_no_newline(x: Seq<char>)
    ensures
        forall|i: int| 0 <= i < lines(x).len() ==> !(#[trigger] lines(x)[i]).contains('\n'),
    decreases x.len(),
{
    if x.len() > 0 {
        lemma_first_index_of(x, '\n');
        let k = first_index_of(x, '\n');
        if k >= x.len() {
            assert forall|i: int| 0 <= i < lines(x).len() implies !(#[trigger] lines(x)[i]).contains('\n') by {
                assert(lines(x)[i] == x);
            }
        } else {
            lemma_lines_no_newline(x.skip(k + 1));
            let h = x.take(k);
            assert forall|i: int| 0 <= i < lines(x).len() implies !(#[trigger] lines(x)[i]).contains('\n') by {
                if i == 0 {
                    let l = crate::text::strip_cr(h);
                    if l.contains('\n') {
                        let j = choose|j: int| 0 <= j < l.len() && l[j] == '\n';
                        assert(h[j] == '\n');
                    }
                } else {
                    assert(lines(x)[i] == lines(x.skip(k + 1))[i - 1]);
                }
            }
        }
    }
}

proof fn lemma_unmarked_lines_missing(x: Seq<char>)
    requires
        unmarked_pieces(x),
    ensures
        parse_marker_lines(lines(x)) == NextMarker::Missing,
    decreases x.len(),
{
    if x.len() > 0 {
        lemma_first_index_of(x, '\n');
        let k = first_index_of(x, '\n');
        if k >= x.len() {
            assert(split_on(x, '\n') == seq![x]);
            assert(!is_marker(split_on(x, '\n')[0]));
            assert(lines(x) == seq![x]);
            assert(lines(x).drop_first().len() == 0);
            assert(parse_marker_lines(lines(x).drop_first()) == NextMarker::Missing);
        } else {
            let h = x.take(k);
            let rest = x.skip(k + 1);
            assert(split_on(x, '\n') == seq![h] + split_on(rest, '\n'));
            assert(split_on(x, '\n')[0] == h);
            assert(!is_marker(split_on(x, '\n')[0]));
            assert forall|i: int| 0 <= i < split_on(rest, '\n').len() implies !is_marker(#[trigger] split_on(rest, '\n')[i]) by {
                assert(split_on(x, '\n')[i + 1] == split_on(rest, '\n')[i]);
            }
            lemma_unmarked_lines_missing(rest);
            let l = crate::text::strip_cr(h);
            if h.len() > 0 && h.last() == '\r' {
                lemma_trim_drop_last(h);
            }
            lemma_marker_by_trim(l, h);
            assert(lines(x) == seq![l] + lines(rest));
            assert(lines(x)[0] == l);
            assert(lines(x).drop_first() =~= lines(rest));
            assert(!is_marker(lines(x)[0]));
        }
    }
}

proof fn lemma_strip_unmarked(text: Seq<char>)
    ensures
        unmarked_pieces(spec_strip_vk_next(text)),
{
    broadcast use vstd::seq_lib::group_filter_ensures;
    broadcast use vstd::seq::Seq::lemma_filter_contains_rev;

    let f = lines(text).filter(|l: Seq<char>| !is_marker(l));
    assert(spec_strip_vk_next(text) == trim(join(f, "\n"@)));
    reveal_strlit("\n");
    assert("\n"@ =~= seq!['\n']);
    let j = join(f, seq!['\n']);
    lemma_lines_no_newline(text);
    assert(unmarked_pieces(j)) by {
        if f.len() == 0 {
            assert(j.len() == 0);
            lemma_first_index_of(j, '\n');
            assert(split_on(j, '\n') == seq![j]);
            assert(trim(j).len() == 0);
            reveal_strlit("vk_next:");
            assert(marker_body(j).len() == 0);
            assert(!is_marker(j));
            assert forall|i: int| 0 <= i < split_on(j, '\n').len() implies !is_marker(#[trigger] split_on(j, '\n')[i]) by {
                assert(split_on(j, '\n')[i] == j);
            }
        } else {
            assert forall|i: int| 0 <= i < f.len() implies !(#[trigger] f[i]).contains('\n') by {
                assert(f.contains(f[i]));
                assert(lines(text).contains(f[i]));
                let q = choose|q: int| 0 <= q < lines(text).len() && lines(text)[q] == f[i];
                assert(!lines(text)[q].contains('\n'));
            }
            lemma_split_join(f);
            assert forall|i: int| 0 <= i < split_on(j, '\n').len() implies !is_marker(#[trigger] split_on(j, '\n')[i]) by {
                assert(split_on(j, '\n')[i] == f[i]);
                assert(!is_marker(f[i]));
            }
        }
    }
    lemma_unmarked_trim_start(j);
    lemma_unmarked_trim_end(trim_start(j));
}

/// Stripping the marker lines leaves none: parsing the stripped text finds no marker, so
/// no action is read from it.
pub proof fn law_strip_leaves_no_marker(text: Seq<char>)
    ensures
        spec_parse_vk_next(spec_strip_vk_next(text)) == NextMarker::Missing,
        !(spec_parse_vk_next(spec_strip_vk_next(text)) is Parsed),
{
    lemma_strip_unmarked(text);
    lemma_unmarked_lines_missing(spec_strip_vk_next(text));
}

proof fn lemma_lines_no_char(x: Seq<char>, c: char)
    requires
        !x.contains(c),
    ensures
        forall|i: int| 0 <= i < lines(x).len() ==> !(#[trigger] lines(x)[i]).contains(c),
    decreases x.len(),
{
    if x.len() > 0 {
        lemma_first_index_of(x, '\n');
        let k = first_index_of(x, '\n');
        if k < x.len() {
            let rest = x.skip(k + 1);
            assert(!rest.contains(c)) by {
                if rest.contains(c) {
                    let j = choose|j: int| 0 <= j < rest.len() && rest[j] == c;
                    assert(x[k + 1 + j] == c);
                }
            }
            lemma_lines_no_char(rest, c);
            assert forall|i: int| 0 <= i < lines(x).len() implies !(#[trigger] lines(x)[i]).contains(c) by {
                if i == 0 {
                    let l = crate::text::strip_cr(x.take(k));
                    if l.contains(c) {
                        let j = choose|j: int| 0 <= j < l.len() && l[j] == c;
                        assert(x[j] == c);
                    }
                } else {
                    assert(lines(x)[i] == lines(rest)[i - 1]);
                }
            }
        } else {
            assert forall|i: int| 0 <= i < lines(x).len() implies !(#[trigger] lines(x)[i]).contains(c) by {
                assert(lines(x)[i] == x);
            }
        }
    }
}

proof fn lemma_join_no_char(parts: Seq<Seq<char>>, c: char)
    requires
        c != '\n',
        forall|i: int| 0 <= i < parts.len() ==> !(#[trigger] parts[i]).contains(c),
    ensures
        !join(parts, seq!['\n']).contains(c),
    decreases parts.len(),
{
    if parts.len() > 1 {
        let d = parts.drop_last();
        assert forall|i: int| 0 <= i < d.len() implies !(#[trigger] d[i]).contains(c) by {
            assert(d[i] == parts[i]);
        }
        lemma_join_no_char(d, c);
        let a = join(d, seq!['\n']);
        let l = parts.last();
        assert(!l.contains(c)) by {
            assert(l == parts[parts.len() - 1]);
        }
        let y = a + seq!['\n'] + l;
        if y.contains(c) {
            let j = choose|j: int| 0 <= j < y.len() && y[j] == c;
            if j < a.len() {
                assert(a[j] == c);
            } else if j > a.len() {
                assert(l[j - a.len() - 1] == c);
            }
        }
    } else if parts.len() == 1 {
        assert(!parts[0].contains(c));
    }
}

proof fn lemma_trim_start_no_char(y: Seq<char>, c: char)
    requires
        !y.contains(c),
    ensures
        !trim_start(y).contains(c),
    decreases y.len(),
{
    if y.len() > 0 && is_ws(y[0]) {
        assert(!y.drop_first().contains(c)) by {
            if y.drop_first().contains(c) {
                let j = choose|j: int| 0 <= j < y.drop_first().len() && y.drop_first()[j] == c;
                assert(y[j + 1] == c);
            }
        }
        lemma_trim_start_no_char(y.drop_first(), c);
    }
}

proof fn lemma_trim_end_no_char(y: Seq<char>, c: char)
    requires
        !y.contains(c),
    ensures
        !trim_end(y).contains(c),
    decreases y.len(),
{
    if y.len() > 0 && is_ws(y.last()) {
        assert(!y.drop_last().contains(c)) by {
            if y.drop_last().contains(c) {
                let j = choose|j: int| 0 <= j < y.drop_last().len() && y.drop_last()[j] == c;
                assert(y[j] == c);
            }
        }
        lemma_trim_end_no_char(y.drop_last(), c);
    }
}

/// A text without `\r` that does not end with a newline splits into its lines.
proof fn lemma_lines_are_pieces(x: Seq<char>)
    requires
        x.len() > 0,
        x.last() != '\n',
        !x.contains('\r'),
    ensures
        lines(x) == split_on(x, '\n'),
    decreases x.len(),
{
    lemma_first_index_of(x, '\n');
    let k = first_index_of(x, '\n');
    if k < x.len() {
        let rest = x.skip(k + 1);
        assert(k < x.len() - 1);
        assert(rest.last() == x.last());
        assert(!rest.contains('\r')) by {
            if rest.contains('\r') {
                let j = choose|j: int| 0 <= j < rest.len() && rest[j] == '\r';
                assert(x[k + 1 + j] == '\r');
            }
        }
        lemma_lines_are_pieces(rest);
        let h = x.take(k);
        if h.len() > 0 && h.last() == '\r' {
            assert(x[k - 1] == '\r');
        }
        assert(crate::text::strip_cr(h) == h);
    }
}

proof fn lemma_join_front(h: Seq<char>, r: Seq<Seq<char>>)
    requires
        r.len() >= 1,
    ensures
        join(seq![h] + r, seq!['\n']) == h + seq!['\n'] + join(r, seq!['\n']),
    decreases r.len(),
{
    let f = seq![h] + r;
    let sep = seq!['\n'];
    if r.len() == 1 {
        assert(f.drop_last() =~= seq![h]);
        assert(join(f.drop_last(), sep) == h);
        assert(f.last() == r[0]);
        assert(join(r, sep) == r[0]);
        assert(join(f, sep) == join(f.drop_last(), sep) + sep + f.last());
    } else {
        lemma_join_front(h, r.drop_last());
        assert(f.drop_last() =~= seq![h] + r.drop_last());
        assert(f.last() == r.last());
        assert(join(f, sep) == join(f.drop_last(), sep) + sep + f.last());
        assert(join(r, sep) == join(r.drop_last(), sep) + sep + r.last());
        assert(h + sep + join(r.drop_last(), sep) + sep + r.last() =~= h + sep + (join(
            r.drop_last(),
            sep,
        ) + sep + r.last()));
    }
}

/// Joining the pieces of a text at its newlines gives the text back.
proof fn lemma_join_pieces(x: Seq<char>)
    ensures
        join(split_on(x, '\n'), seq!['\n']) == x,
    decreases x.len(),
{
    lemma_first_index_of(x, '\n');
    let k = first_index_of(x, '\n');
    if k < x.len() {
        let rest = x.skip(k + 1);
        lemma_join_pieces(rest);
        lemma_split_nonempty(rest, '\n');
        lemma_join_front(x.take(k), split_on(rest, '\n'));
        assert(x.take(k) + seq!['\n'] + rest =~= x);
    }
}

proof fn lemma_filter_all<A>(s: Seq<A>, p: spec_fn(A) -> bool)
    requires
        forall|i: int| 0 <= i < s.len() ==> p(#[trigger] s[i]),
    ensures
        s.filter(p) == s,
    decreases s.len(),
{
    reveal(Seq::filter);
    if s.len() > 0 {
        let d = s.drop_last();
        assert forall|i: int| 0 <= i < d.len() implies p(#[trigger] d[i]) by {
            assert(d[i] == s[i]);
        }
        lemma_filter_all(d, p);
        assert(p(s[s.len() - 1]));
        assert(d.push(s.last()) =~= s);
    }
}

/// Stripping the marker lines of a stripped text changes nothing, when the text has no
/// carriage return (a `\r` before a newline is dropped from a line, so it does not come
/// back).
pub proof fn law_strip_is_idempotent(text: Seq<char>)
    requires
        !text.contains('\r'),
    ensures
        spec_strip_vk_next(spec_strip_vk_next(text)) == spec_strip_vk_next(text),
{
    reveal_strlit("\n");
    assert("\n"@ =~= seq!['\n']);
    let s = spec_strip_vk_next(text);
    let f = lines(text).filter(|l: Seq<char>| !is_marker(l));
    let j = join(f, seq!['\n']);
    assert(s == trim(j));
    lemma_lines_no_char(text, '\r');
    assert forall|i: int| 0 <= i < f.len() implies !(#[trigger] f[i]).contains('\r') by {
        broadcast use vstd::seq_lib::group_filter_ensures;
        broadcast use vstd::seq::Seq::lemma_filter_contains_rev;
        assert(f.contains(f[i]));
        assert(lines(text).contains(f[i]));
        let q = choose|q: int| 0 <= q < lines(text).len() && lines(text)[q] == f[i];
        assert(!lines(text)[q].contains('\r'));
    }
    lemma_join_no_char(f, '\r');
    lemma_trim_start_no_char(j, '\r');
    lemma_trim_end_no_char(trim_start(j), '\r');
    crate::text::lemma_trim_idempotent(j);
    if s.len() == 0 {
        assert(lines(s) =~= Seq::<Seq<char>>::empty());
        assert(lines(s).filter(|l: Seq<char>| !is_marker(l)) =~= Seq::<Seq<char>>::empty()) by {
            reveal(Seq::filter);
        }
        assert(join(Seq::<Seq<char>>::empty(), "\n"@).len() == 0);
        assert(s =~= Seq::<char>::empty());
    } else {
        crate::text::lemma_trim_ends(j);
        assert(is_ws('\n'));
        lemma_lines_are_pieces(s);
        lemma_strip_unmarked(text);
        let p = |l: Seq<char>| !is_marker(l);
        assert forall|i: int| 0 <= i < lines(s).len() implies p(#[trigger] lines(s)[i]) by {
            assert(!is_marker(split_on(s, '\n')[i]));
        }
        lemma_filter_all(lines(s), p);
        assert(lines(s).filter(|l: Seq<char>| !is_marker(l)) == lines(s)) by {
            assert((|l: Seq<char>| !is_marker(l)) =~= p);
        }
        lemma_join_pieces(s);
    }
}

} // verus!
