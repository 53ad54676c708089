//! Request and response data, and the page-selection, file-name and length rules.
use vstd::prelude::*;
use crate::decimal::{
    dec_string, is_digit, lemma_dec_string_digits, lemma_parse_dec_string, parse_unsigned,
    parse_unsigned_chars, push_decimal,
};
use crate::text::{
    chars_eq, chars_of, find_char, first_index_of, is_white_space, lemma_split_on_nonempty,
    lemma_split_on_append_plain, lemma_split_on_plain, lemma_split_on_push_sep, push_chars, push_str, split_on, string_from_chars, sub_chars, trim, trim_bounds,
    trimmed_chars,
};

verus! {

// ---------------------------------------------------------------------------
// Page selection (`"1-3,5"`).
// ---------------------------------------------------------------------------

/// The message of a page that does not parse.
pub open spec fn invalid_page_message(s: Seq<char>) -> Seq<char> {
    "invalid page '"@ + s + "'"@
}

/// The message of a range whose start is after its end.
pub open spec fn invalid_range_message(part: Seq<char>) -> Seq<char> {
    "invalid range '"@ + part + "'"@
}

/// The message of a page outside `1..=total`.
pub open spec fn out_of_range_message(p: usize, total: usize) -> Seq<char> {
    "page "@ + dec_string(p as nat) + " out of range 1..="@ + dec_string(total as nat)
}

/// One page number: `s` trimmed and read as a `usize`.
pub open spec fn page_number(s: Seq<char>) -> Result<usize, Seq<char>> {
    match parse_unsigned(trim(s), usize::MAX as nat) {
        Ok(n) => Ok(n as usize),
        Err(_) => Err(invalid_page_message(s)),
    }
}

/// The pages `a, a+1, ..., b`.
pub open spec fn page_span(a: usize, b: usize) -> Seq<usize> {
    Seq::new((b - a + 1) as nat, |i: int| (a + i) as usize)
}

/// The pages that one non-empty, trimmed part names: `n` or `a-b` (split at the first `-`).
pub open spec fn part_pages(t: Seq<char>) -> Result<Seq<usize>, Seq<char>> {
    match first_index_of(t, '-') {
        Some(k) => match page_number(t.subrange(0, k)) {
            Err(e) => Err(e),
            Ok(a) => match page_number(t.subrange(k + 1, t.len() as int)) {
                Err(e) => Err(e),
                Ok(b) => if a > b {
                    Err(invalid_range_message(t))
                } else {
                    Ok(page_span(a, b))
                },
            },
        },
        None => match page_number(t) {
            Err(e) => Err(e),
            Ok(n) => Ok(seq![n]),
        },
    }
}

/// The pages that the comma-separated `pieces` name, in order; the first failing part
/// decides the error. Blank parts are skipped.
pub open spec fn collect_pages(pieces: Seq<Seq<char>>) -> Result<Seq<usize>, Seq<char>>
    decreases pieces.len(),
{
    if pieces.len() == 0 {
        Ok(Seq::empty())
    } else {
        match collect_pages(pieces.drop_last()) {
            Err(e) => Err(e),
            Ok(raw) => {
                let t = trim(pieces.last());
                if t.len() == 0 {
                    Ok(raw)
                } else {
                    match part_pages(t) {
                        Err(e) => Err(e),
                        Ok(ps) => Ok(raw + ps),
                    }
                }
            },
        }
    }
}

pub open spec fn page_in_range(p: usize, total: usize) -> bool {
    1 <= p && p <= total
}

/// The first page of `raw` outside `1..=total`.
pub open spec fn first_out_of_range(raw: Seq<usize>, total: usize) -> Option<usize>
    decreases raw.len(),
{
    if raw.len() == 0 {
        None
    } else if !page_in_range(raw[0], total) {
        Some(raw[0])
    } else {
        first_out_of_range(raw.drop_first(), total)
    }
}

/// `raw` with every repeat of an earlier page removed.
pub open spec fn dedup(raw: Seq<usize>) -> Seq<usize>
    decreases raw.len(),
{
    if raw.len() == 0 {
        Seq::empty()
    } else {
        let d = dedup(raw.drop_last());
        if d.contains(raw.last()) {
            d
        } else {
            d.push(raw.last())
        }
    }
}

/// All pages `1..=total`.
pub open spec fn all_pages(total: usize) -> Seq<usize> {
    Seq::new(total as nat, |i: int| (i + 1) as usize)
}

/// What `parse_pages(spec, total)` returns.
pub open spec fn pages_result(spec: Seq<char>, total: usize) -> Result<Seq<usize>, Seq<char>> {
    if trim(spec).len() == 0 {
        Ok(all_pages(total))
    } else {
        match collect_pages(split_on(spec, ',')) {
            Err(e) => Err(e),
            Ok(raw) => match first_out_of_range(raw, total) {
                Some(p) => Err(out_of_range_message(p, total)),
                None => Ok(dedup(raw)),
            },
        }
    }
}

/// Removing repeats keeps exactly the pages that were requested.
pub proof fn lemma_dedup_contains(raw: Seq<usize>, p: usize)
    ensures
        dedup(raw).contains(p) <==> raw.contains(p),
    decreases raw.len(),
{
    if raw.len() > 0 {
        lemma_dedup_contains(raw.drop_last(), p);
        if raw.contains(p) && p != raw.last() {
            let i = choose|i: int| 0 <= i < raw.len() && raw[i] == p;
            assert(raw.drop_last()[i] == p);
        }
        if raw.drop_last().contains(p) {
            let i = choose|i: int| 0 <= i < raw.drop_last().len() && raw.drop_last()[i] == p;
            assert(raw[i] == p);
        }
        let d = dedup(raw.drop_last());
        if !d.contains(raw.last()) && p == raw.last() {
            assert(d.push(raw.last())[d.len() as int] == p);
        }
        if !d.contains(raw.last()) && d.contains(p) {
            let i = choose|i: int| 0 <= i < d.len() && d[i] == p;
            assert(d.push(raw.last())[i] == p);
        }
        if !d.contains(raw.last()) && d.push(raw.last()).contains(p) && p != raw.last() {
            let i = choose|i: int| 0 <= i < d.len() + 1 && d.push(raw.last())[i] == p;
            assert(d[i] == p);
        }
        assert(raw.contains(raw.last()) ) by {
            assert(raw[raw.len() - 1] == raw.last());
        }
    }
}

proof fn lemma_dedup_no_duplicates(raw: Seq<usize>)
    ensures
        dedup(raw).no_duplicates(),
    decreases raw.len(),
{
    if raw.len() > 0 {
        lemma_dedup_no_duplicates(raw.drop_last());
    }
}

proof fn lemma_first_out_of_range_none(raw: Seq<usize>, total: usize)
    requires
        first_out_of_range(raw, total) is None,
    ensures
        forall|i: int| 0 <= i < raw.len() ==> page_in_range(#[trigger] raw[i], total),
    decreases raw.len(),
{
    if raw.len() > 0 {
        lemma_first_out_of_range_none(raw.drop_first(), total);
        assert forall|i: int| 0 <= i < raw.len() implies page_in_range(#[trigger] raw[i], total) by {
            if i > 0 {
                assert(raw[i] == raw.drop_first()[i - 1]);
            }
        }
    }
}

/// Every page that `pages_result` selects lies in `1..=total`, and none is selected twice.
pub proof fn lemma_selected_pages_valid(spec: Seq<char>, total: usize)
    ensures
        pages_result(spec, total) matches Ok(v) ==> {
            &&& v.no_duplicates()
            &&& forall|i: int| 0 <= i < v.len() ==> page_in_range(#[trigger] v[i], total)
        },
{
    if trim(spec).len() != 0 {
        if let Ok(raw) = collect_pages(split_on(spec, ',')) {
            if first_out_of_range(raw, total) is None {
                lemma_first_out_of_range_none(raw, total);
                lemma_dedup_no_duplicates(raw);
                let v = dedup(raw);
                assert forall|i: int| 0 <= i < v.len() implies page_in_range(#[trigger] v[i], total) by {
                    lemma_dedup_contains(raw, v[i]);
                    assert(v.contains(v[i]));
                    let j = choose|j: int| 0 <= j < raw.len() && raw[j] == v[i];
                    assert(page_in_range(raw[j], total));
                }
            }
        }
    }
}


proof fn lemma_first_out_of_range_all_in(raw: Seq<usize>, total: usize)
    requires
        forall|i: int| 0 <= i < raw.len() ==> page_in_range(#[trigger] raw[i], total),
    ensures
        first_out_of_range(raw, total) is None,
    decreases raw.len(),
{
    if raw.len() > 0 {
        assert(page_in_range(raw[0], total));
        assert forall|i: int| 0 <= i < raw.drop_first().len() implies page_in_range(
            #[trigger] raw.drop_first()[i],
            total,
        ) by {
            assert(raw.drop_first()[i] == raw[i + 1]);
        }
        lemma_first_out_of_range_all_in(raw.drop_first(), total);
    }
}

proof fn lemma_dedup_of_distinct(raw: Seq<usize>)
    requires
        raw.no_duplicates(),
    ensures
        dedup(raw) == raw,
    decreases raw.len(),
{
    if raw.len() > 0 {
        let d = raw.drop_last();
        assert(d.no_duplicates());
        lemma_dedup_of_distinct(d);
        if d.contains(raw.last()) {
            let i = choose|i: int| 0 <= i < d.len() && d[i] == raw.last();
            assert(raw[i] == raw[raw.len() - 1]);
        }
        assert(d.push(raw.last()) == raw);
    }
}

/// The numeral of a page, with no white space and no `-` or `,` in it.
proof fn lemma_numeral_plain(n: nat)
    ensures
        dec_string(n).len() >= 1,
        forall|i: int|
            0 <= i < dec_string(n).len() ==> {
                let c = #[trigger] dec_string(n)[i];
                &&& !is_white_space(c)
                &&& c != '-'
                &&& c != ','
            },
        trim(dec_string(n)) == dec_string(n),
{
    lemma_dec_string_digits(n);
    let s = dec_string(n);
    assert forall|i: int| 0 <= i < s.len() implies !is_white_space(#[trigger] s[i]) by {
        assert(is_digit(s[i]));
    }
    lemma_trim_start_keeps_non_space(s);
}

/// Pages listed with a comma are taken in the order given, a repeated page once:
/// `a,b` selects `a` then `b`, and `a,a` selects `a`; a listed page outside `1..=total`
/// is refused.
pub proof fn lemma_page_list_text(a: usize, b: usize, total: usize)
    ensures
        1 <= a <= total && 1 <= b <= total && a != b ==> pages_result(
            dec_string(a as nat) + ","@ + dec_string(b as nat),
            total,
        ) == Ok::<Seq<usize>, Seq<char>>(seq![a, b]),
        1 <= a <= total && a == b ==> pages_result(dec_string(a as nat) + ","@ + dec_string(b as nat), total)
            == Ok::<Seq<usize>, Seq<char>>(seq![a]),
        (a == 0 || a > total || b == 0 || b > total) ==> pages_result(
            dec_string(a as nat) + ","@ + dec_string(b as nat),
            total,
        ) is Err,
{
    reveal_strlit(",");
    let x = dec_string(a as nat);
    let y = dec_string(b as nat);
    lemma_numeral_plain(a as nat);
    lemma_numeral_plain(b as nat);
    lemma_parse_dec_string(a as nat, usize::MAX as nat);
    lemma_parse_dec_string(b as nat, usize::MAX as nat);
    let r = x + ","@ + y;
    assert(r == x.push(',') + y);
    lemma_split_on_plain(x, ',');
    lemma_split_on_push_sep(x, ',');
    lemma_split_on_append_plain(x.push(','), y, ',');
    assert(Seq::<char>::empty() + y == y);
    let pieces = split_on(r, ',');
    assert(pieces == seq![x, y]);
    assert(r[0] == x[0]);
    assert(!is_white_space(r[0]));
    assert(trim(r).len() != 0) by {
        assert(crate::text::trim_start(r) == r);
        assert(r.last() == y.last());
        assert(y.last() == y[y.len() - 1]);
        assert(crate::text::trim_end(r) == r);
    }
    assert(first_index_of(x, '-') is None);
    assert(first_index_of(y, '-') is None);
    assert(part_pages(x) == Ok::<Seq<usize>, Seq<char>>(seq![a]));
    assert(part_pages(y) == Ok::<Seq<usize>, Seq<char>>(seq![b]));
    assert(pieces.drop_last() == seq![x]);
    assert(seq![x].drop_last() == Seq::<Seq<char>>::empty());
    assert(collect_pages(Seq::<Seq<char>>::empty()) == Ok::<Seq<usize>, Seq<char>>(Seq::empty()));
    assert(Seq::<usize>::empty() + seq![a] == seq![a]);
    assert(collect_pages(seq![x]) == Ok::<Seq<usize>, Seq<char>>(seq![a]));
    assert(seq![a] + seq![b] == seq![a, b]);
    assert(collect_pages(pieces) == Ok::<Seq<usize>, Seq<char>>(seq![a, b]));
    let raw = seq![a, b];
    assert(raw.drop_first() == seq![b]);
    assert(seq![b].drop_first() == Seq::<usize>::empty());
    assert(first_out_of_range(Seq::<usize>::empty(), total) is None);
    assert(raw.drop_last() == seq![a]);
    assert(seq![a].drop_last() == Seq::<usize>::empty());
    assert(dedup(Seq::<usize>::empty()) == Seq::<usize>::empty());
    assert(Seq::<usize>::empty().push(a) == seq![a]);
    assert(dedup(seq![a]) == seq![a]);
    if 1 <= a <= total && 1 <= b <= total {
        assert(first_out_of_range(seq![b], total) is None);
        assert(first_out_of_range(raw, total) is None);
    }
    if a != b {
        assert(!seq![a].contains(b));
        assert(seq![a].push(b) == raw);
    } else {
        assert(seq![a].contains(a)) by {
            assert(seq![a][0] == a);
        }
    }
}

/// How a page selection reads: a blank selection takes every page in order; a single
/// page `n` takes just that page; a range `a-b` takes `a, a+1, ..., b` in order; a page
/// outside `1..=total`, or a range that runs backwards, is refused.
pub proof fn lemma_page_selection_text(a: usize, b: usize, total: usize, spec: Seq<char>)
    ensures
        trim(spec).len() == 0 ==> (pages_result(spec, total) matches Ok(v) && v.len() == total
            && forall|i: int| 0 <= i < total ==> #[trigger] v[i] == i + 1),
        1 <= a <= total ==> pages_result(dec_string(a as nat), total) == Ok::<Seq<usize>, Seq<char>>(
            seq![a],
        ),
        (a == 0 || a > total) ==> pages_result(dec_string(a as nat), total) is Err,
        1 <= a <= b <= total ==> (pages_result(dec_string(a as nat) + "-"@ + dec_string(b as nat), total) matches Ok(v)
            && v.len() == b - a + 1 && forall|i: int| 0 <= i < v.len() ==> #[trigger] v[i] == a + i),
        a > b ==> pages_result(dec_string(a as nat) + "-"@ + dec_string(b as nat), total) is Err,
        (a == 0 || b > total) ==> pages_result(dec_string(a as nat) + "-"@ + dec_string(b as nat), total) is Err,
{
    reveal_strlit("-");
    // A single page.
    let x = dec_string(a as nat);
    lemma_numeral_plain(a as nat);
    lemma_parse_dec_string(a as nat, usize::MAX as nat);
    lemma_split_on_plain(x, ',');
    assert(seq![x].drop_last() == Seq::<Seq<char>>::empty());
    assert(collect_pages(Seq::<Seq<char>>::empty()) == Ok::<Seq<usize>, Seq<char>>(Seq::empty()));
    assert(seq![x].last() == x);
    assert(first_index_of(x, '-') is None);
    assert(page_number(x) == Ok::<usize, Seq<char>>(a));
    assert(part_pages(x) == Ok::<Seq<usize>, Seq<char>>(seq![a]));
    assert(Seq::<usize>::empty() + seq![a] == seq![a]);
    assert(collect_pages(seq![x]) == Ok::<Seq<usize>, Seq<char>>(seq![a]));
    assert(seq![a].drop_first() == Seq::<usize>::empty());
    if 1 <= a <= total {
        assert(first_out_of_range(Seq::<usize>::empty(), total) is None);
        assert(first_out_of_range(seq![a], total) is None);
        assert(dedup(seq![a]) == seq![a]) by {
            assert(seq![a].drop_last() == Seq::<usize>::empty());
            assert(dedup(Seq::<usize>::empty()) == Seq::<usize>::empty());
            assert(!Seq::<usize>::empty().contains(a));
            assert(Seq::<usize>::empty().push(a) == seq![a]);
        }
    }
    // A range.
    let y = dec_string(b as nat);
    lemma_numeral_plain(b as nat);
    lemma_parse_dec_string(b as nat, usize::MAX as nat);
    let r = x + "-"@ + y;
    let k = x.len() as int;
    assert(r[k] == '-');
    assert forall|i: int| 0 <= i < r.len() implies r[i] != ',' by {
        if i < k {
            assert(r[i] == x[i]);
        } else if i > k {
            assert(r[i] == y[i - k - 1]);
        }
    }
    assert forall|i: int| 0 <= i < r.len() implies !is_white_space(#[trigger] r[i]) by {
        if i < k {
            assert(r[i] == x[i]);
        } else if i > k {
            assert(r[i] == y[i - k - 1]);
        }
    }
    lemma_trim_start_keeps_non_space(r);
    lemma_split_on_plain(r, ',');
    assert(seq![r].drop_last() == Seq::<Seq<char>>::empty());
    assert(seq![r].last() == r);
    assert(exists|j: int| 0 <= j < r.len() && r[j] == '-' && forall|i: int| 0 <= i < j ==> r[i] != '-') by {
        assert forall|i: int| 0 <= i < k implies r[i] != '-' by {
            assert(r[i] == x[i]);
        }
    }
    let w = choose|j: int| 0 <= j < r.len() && r[j] == '-' && forall|i: int| 0 <= i < j ==> r[i] != '-';
    assert(w == k) by {
        if w < k {
            assert(r[w] == x[w]);
        }
        if k < w {
            assert(r[k] != '-');
        }
    }
    assert(first_index_of(r, '-') == Some(k));
    assert(r.subrange(0, k) == x);
    assert(r.subrange(k + 1, r.len() as int) == y);
    assert(page_number(y) == Ok::<usize, Seq<char>>(b));
    if a <= b {
        let span = page_span(a, b);
        assert(part_pages(r) == Ok::<Seq<usize>, Seq<char>>(span));
        assert(Seq::<usize>::empty() + span == span);
        assert(collect_pages(seq![r]) == Ok::<Seq<usize>, Seq<char>>(span));
        if 1 <= a && b <= total {
            lemma_first_out_of_range_all_in(span, total);
            assert(span.no_duplicates());
            lemma_dedup_of_distinct(span);
        } else {
            assert(span[0] == a);
            assert(span[span.len() - 1] == b);
            if first_out_of_range(span, total) is None {
                lemma_first_out_of_range_none(span, total);
                assert(page_in_range(span[0], total));
                assert(page_in_range(span[span.len() - 1], total));
            }
        }
    }
}

} // verus!

verus! {

/// Builds `prefix ++ middle ++ suffix` as a `String`.
fn message3(prefix: &str, middle: &Vec<char>, suffix: &str) -> (m: String)
    ensures
        m@ == prefix@ + middle@ + suffix@,
{
    let mut out: Vec<char> = Vec::new();
    push_str(&mut out, prefix);
    push_chars(&mut out, middle);
    push_str(&mut out, suffix);
    string_from_chars(&out)
}

/// One page number from `v[lo..hi]` (trimmed first).
fn parse_one(v: &Vec<char>, lo: usize, hi: usize) -> (r: Result<usize, String>)
    requires
        lo <= hi <= v.len(),
    ensures
        match (r, page_number(v@.subrange(lo as int, hi as int))) {
            (Ok(x), Ok(y)) => x == y,
            (Err(e), Err(f)) => e@ == f,
            _ => false,
        },
{
    let (a, b) = trim_bounds(v, lo, hi);
    match parse_unsigned_chars(v, a, b, usize::MAX as u64) {
        Ok(n) => {
            proof {
                crate::decimal::lemma_parse_unsigned_bounded(v@.subrange(a as int, b as int), usize::MAX as nat);
            }
            Ok(n as usize)
        },
        Err(_) => {
            let s = sub_chars(v, lo, hi);
            Err(message3("invalid page '", &s, "'"))
        },
    }
}

/// Appends the pages `a..=b` to `raw`.
fn push_span(raw: &mut Vec<usize>, a: usize, b: usize)
    requires
        a <= b,
    ensures
        final(raw)@ == old(raw)@ + page_span(a, b),
{
    let ghost start = raw@;
    let mut p = a;
    loop
        invariant
            a <= p <= b,
            start == old(raw)@,
            raw@ == start + Seq::new((p - a) as nat, |i: int| (a + i) as usize),
        decreases b - p,
    {
        raw.push(p);
        assert(raw@ =~= start + Seq::new((p - a + 1) as nat, |i: int| (a + i) as usize));
        if p == b {
            assert(Seq::new((p - a + 1) as nat, |i: int| (a + i) as usize) =~= page_span(a, b));
            return;
        }
        p = p + 1;
    }
}

/// Handles one comma-separated piece `v[lo..hi]`, appending its pages to `raw`.
fn process_piece(v: &Vec<char>, lo: usize, hi: usize, raw: &mut Vec<usize>) -> (r: Result<
    (),
    String,
>)
    requires
        lo <= hi <= v.len(),
    ensures
        ({
            let t = trim(v@.subrange(lo as int, hi as int));
            if t.len() == 0 {
                r is Ok && final(raw)@ == old(raw)@
            } else {
                match (r, part_pages(t)) {
                    (Ok(_), Ok(ps)) => final(raw)@ == old(raw)@ + ps,
                    (Err(e), Err(f)) => e@ == f,
                    _ => false,
                }
            }
        }),
{
    let (a, b) = trim_bounds(v, lo, hi);
    let ghost t = v@.subrange(a as int, b as int);
    if a == b {
        return Ok(());
    }
    match find_char(v, a, b, '-') {
        Some(k) => {
            assert(t.subrange(0, k - a) == v@.subrange(a as int, k as int));
            assert(t.subrange(k - a + 1, t.len() as int) == v@.subrange(k + 1, b as int));
            let pa = parse_one(v, a, k)?;
            let pb = parse_one(v, k + 1, b)?;
            if pa > pb {
                let part = sub_chars(v, a, b);
                return Err(message3("invalid range '", &part, "'"));
            }
            push_span(raw, pa, pb);
            Ok(())
        },
        None => {
            let p = parse_one(v, a, b)?;
            raw.push(p);
            Ok(())
        },
    }
}

/// The 1-based pages `1..=total`.
fn all_pages_vec(total: usize) -> (v: Vec<usize>)
    ensures
        v@ == all_pages(total),
{
    let mut v: Vec<usize> = Vec::new();
    let mut i: usize = 0;
    while i < total
        invariant
            i <= total,
            v@ == all_pages(i),
        decreases total - i,
    {
        i = i + 1;
        v.push(i);
        assert(v@ =~= all_pages(i));
    }
    v
}

/// Splitting a longer prefix keeps every finished piece of a shorter one.
proof fn lemma_split_prefix(s: Seq<char>, i: int, j: int)
    requires
        0 <= i <= j <= s.len(),
    ensures
        split_on(s.take(j), ',').len() >= split_on(s.take(i), ',').len(),
        split_on(s.take(j), ',').take(split_on(s.take(i), ',').len() - 1) == split_on(
            s.take(i),
            ',',
        ).drop_last(),
    decreases j - i,
{
    lemma_split_on_nonempty(s.take(i), ',');
    if i < j {
        lemma_split_prefix(s, i, j - 1);
        lemma_split_on_nonempty(s.take(j - 1), ',');
        assert(s.take(j).drop_last() == s.take(j - 1));
        let a = split_on(s.take(j - 1), ',');
        let b = split_on(s.take(j), ',');
        let n = split_on(s.take(i), ',').len() - 1;
        assert(b.take(n) =~= a.take(n));
    } else {
        assert(split_on(s.take(j), ',').take(split_on(s.take(i), ',').len() - 1) =~= split_on(
            s.take(i),
            ',',
        ).drop_last());
    }
}

/// A failing prefix of the pieces decides the error.
proof fn lemma_collect_prefix_err(ps: Seq<Seq<char>>, k: int)
    requires
        0 <= k <= ps.len(),
        collect_pages(ps.take(k)) is Err,
    ensures
        collect_pages(ps) == collect_pages(ps.take(k)),
    decreases ps.len(),
{
    if k == ps.len() {
        assert(ps.take(k) == ps);
    } else {
        assert(ps.drop_last().take(k) == ps.take(k));
        lemma_collect_prefix_err(ps.drop_last(), k);
    }
}

proof fn lemma_first_out_of_range_skip(raw: Seq<usize>, j: int, total: usize)
    requires
        0 <= j < raw.len(),
        first_out_of_range(raw, total) == first_out_of_range(raw.skip(j), total),
    ensures
        !page_in_range(raw[j], total) ==> first_out_of_range(raw, total) == Some(raw[j]),
        page_in_range(raw[j], total) ==> first_out_of_range(raw, total) == first_out_of_range(
            raw.skip(j + 1),
            total,
        ),
{
    assert(raw.skip(j)[0] == raw[j]);
    assert(raw.skip(j).drop_first() == raw.skip(j + 1));
}

/// Parses a page selection such as `"1,3,5-7"` against a document of `total` pages.
/// A blank selection means every page. Pages come out in the order first requested,
/// each once; a page outside `1..=total` is an error.
pub fn parse_pages(spec: &str, total: usize) -> (r: Result<Vec<usize>, String>)
    ensures
        match (r, pages_result(spec@, total)) {
            (Ok(v), Ok(w)) => v@ == w,
            (Err(e), Err(f)) => e@ == f,
            _ => false,
        },
        r matches Ok(v) ==> v@.no_duplicates() && forall|i: int|
            0 <= i < v@.len() ==> page_in_range(#[trigger] v@[i], total),
{
    proof {
        lemma_selected_pages_valid(spec@, total);
    }
    let s = chars_of(spec);
    let (ta, tb) = trim_bounds(&s, 0, s.len());
    assert(s@.subrange(0, s.len() as int) == s@);
    if ta == tb {
        return Ok(all_pages_vec(total));
    }
    let mut raw: Vec<usize> = Vec::new();
    let mut start: usize = 0;
    let mut i: usize = 0;
    let ghost mut done: Seq<Seq<char>> = Seq::empty();
    assert(s@.take(0) == Seq::<char>::empty());
    assert(split_on(s@.take(0), ',') =~= done.push(s@.subrange(0, 0)));
    while i < s.len()
        invariant
            start <= i <= s.len(),
            split_on(s@.take(i as int), ',') == done.push(s@.subrange(start as int, i as int)),
            collect_pages(done) == Ok::<Seq<usize>, Seq<char>>(raw@),
            trim(spec@).len() != 0,
            s@ == spec@,
        decreases s.len() - i,
    {
        let ghost prefix = s@.take((i + 1) as int);
        assert(prefix.drop_last() == s@.take(i as int));
        assert(prefix.last() == s@[i as int]);
        if s[i] == ',' {
            let ghost piece = s@.subrange(start as int, i as int);
            assert(done.push(piece).drop_last() == done);
            let res = process_piece(&s, start, i, &mut raw);
            if res.is_err() {
                proof {
                    assert(split_on(prefix, ',') == done.push(piece).push(Seq::<char>::empty()));
                    lemma_split_prefix(s@, (i + 1) as int, s@.len() as int);
                    assert(s@.take(s@.len() as int) == s@);
                    assert(done.push(piece).push(Seq::<char>::empty()).drop_last() == done.push(piece));
                    lemma_collect_prefix_err(split_on(s@, ','), (done.len() + 1) as int);
                }
                return Err(res.unwrap_err());
            }
            proof {
                done = done.push(piece);
            }
            start = i + 1;
            assert(s@.subrange(start as int, (i + 1) as int) == Seq::<char>::empty());
        } else {
            assert(s@.subrange(start as int, (i + 1) as int) == s@.subrange(start as int, i as int).push(s@[i as int]));
        }
        i = i + 1;
    }
    assert(s@.take(s.len() as int) == s@);
    let ghost last = s@.subrange(start as int, s.len() as int);
    assert(done.push(last).drop_last() == done);
    let res = process_piece(&s, start, s.len(), &mut raw);
    if res.is_err() {
        return Err(res.unwrap_err());
    }
    assert(collect_pages(split_on(spec@, ',')) == Ok::<Seq<usize>, Seq<char>>(raw@));
    assert(raw@.skip(0) == raw@);
    // The first page outside 1..=total, scanning in request order.
    let mut j: usize = 0;
    while j < raw.len()
        invariant
            j <= raw.len(),
            first_out_of_range(raw@, total) == first_out_of_range(raw@.skip(j as int), total),
            collect_pages(split_on(spec@, ',')) == Ok::<Seq<usize>, Seq<char>>(raw@),
            trim(spec@).len() != 0,
        decreases raw.len() - j,
    {
        let p = raw[j];
        proof {
            lemma_first_out_of_range_skip(raw@, j as int, total);
        }
        if p < 1 || p > total {
            let mut m: Vec<char> = Vec::new();
            push_str(&mut m, "page ");
            push_decimal(&mut m, p as u64);
            push_str(&mut m, " out of range 1..=");
            push_decimal(&mut m, total as u64);
            return Err(string_from_chars(&m));
        }
        j = j + 1;
    }
    proof {
        assert(raw@.skip(raw.len() as int) == Seq::<usize>::empty());
        lemma_first_out_of_range_none(raw@, total);
    }
    // Keep the first occurrence of each page.
    let mut seen: Vec<bool> = Vec::new();
    let mut k: usize = 0;
    while k < total
        invariant
            k <= total,
            seen@.len() == k,
            forall|q: int| 0 <= q < k ==> !seen@[q],
        decreases total - k,
    {
        seen.push(false);
        k = k + 1;
    }
    let mut out: Vec<usize> = Vec::new();
    let mut n: usize = 0;
    while n < raw.len()
        invariant
            n <= raw.len(),
            seen@.len() == total,
            forall|i: int| 0 <= i < raw@.len() ==> page_in_range(#[trigger] raw@[i], total),
            out@ == dedup(raw@.take(n as int)),
            forall|q: int|
                0 <= q < total ==> (seen@[q] <==> dedup(raw@.take(n as int)).contains((q + 1) as usize)),
        decreases raw.len() - n,
    {
        let p = raw[n];
        let ghost before = raw@.take(n as int);
        let ghost after = raw@.take((n + 1) as int);
        assert(after.drop_last() == before);
        assert(after.last() == p);
        assert(page_in_range(raw@[n as int], total));
        assert(dedup(before).contains(p) == seen@[p - 1]);
        if !seen[p - 1] {
            seen.set(p - 1, true);
            out.push(p);
            assert forall|q: int| 0 <= q < total implies (seen@[q] <==> dedup(after).contains(
                (q + 1) as usize,
            )) by {
                if q == p - 1 {
                    assert(dedup(after)[dedup(after).len() - 1] == p);
                } else {
                    if dedup(after).contains((q + 1) as usize) {
                        let i = choose|i: int|
                            0 <= i < dedup(after).len() && dedup(after)[i] == (q + 1) as usize;
                        assert(dedup(before)[i] == (q + 1) as usize);
                    }
                    if dedup(before).contains((q + 1) as usize) {
                        let i = choose|i: int|
                            0 <= i < dedup(before).len() && dedup(before)[i] == (q + 1) as usize;
                        assert(dedup(after)[i] == (q + 1) as usize);
                    }
                }
            }
        }
        n = n + 1;
    }
    assert(raw@.take(raw.len() as int) == raw@);
    Ok(out)
}

} // verus!

verus! {

// ---------------------------------------------------------------------------
// Request and response shapes.
// ---------------------------------------------------------------------------

/// Page layout options of a PDF request.
#[derive(Clone, Debug)]
pub struct PageOptions {
    pub format: Option<String>,
    pub landscape: bool,
    pub margin: Option<String>,
}

impl Default for PageOptions {
    fn default() -> (r: Self)
        ensures
            r.format is None,
            !r.landscape,
            r.margin is None,
    {
        PageOptions { format: None, landscape: false, margin: None }
    }
}

/// The body of `POST /v1/pdf`.
#[derive(Clone, Debug)]
pub struct PdfRequest {
    pub html: String,
    pub page: PageOptions,
    pub header: Option<String>,
    pub footer: Option<String>,
    pub filename: Option<String>,
}

/// A rendered PDF returned inline, base64-encoded.
#[derive(Clone, Debug)]
pub struct PdfInlineResponse {
    pub filename: String,
    pub pdf: String,
}

/// A rendered PDF returned as a signed download link.
#[derive(Clone, Debug)]
pub struct PdfUrlResponse {
    pub filename: String,
    pub download_url: String,
}

/// The raster format of rendered pages.
#[derive(Clone, Copy, Debug, PartialEq, Eq, Structural)]
pub enum ImageFormat {
    Png,
    Jpeg,
}

/// The format used when a request names none.
pub fn default_format() -> (f: ImageFormat)
    ensures
        f == ImageFormat::Png,
{
    ImageFormat::Png
}

impl ImageFormat {
    /// The file extension of the format.
    pub open spec fn ext_spec(self) -> Seq<char> {
        match self {
            ImageFormat::Png => "png"@,
            ImageFormat::Jpeg => "jpeg"@,
        }
    }

    pub fn ext(self) -> (r: &'static str)
        ensures
            r@ == self.ext_spec(),
    {
        match self {
            ImageFormat::Png => "png",
            ImageFormat::Jpeg => "jpeg",
        }
    }
}

/// One rendered page in an images response.
#[derive(Clone, Debug)]
pub struct ImageItem {
    pub page: usize,
    pub width: u32,
    pub height: u32,
    pub format: ImageFormat,
    pub data: Option<String>,
    pub download_url: Option<String>,
}

/// The body of an images response.
#[derive(Clone, Debug)]
pub struct ImagesResponse {
    pub images: Vec<ImageItem>,
}

// ---------------------------------------------------------------------------
// File names.
// ---------------------------------------------------------------------------

pub open spec fn is_safe_filename_char(c: char) -> bool {
    ||| ('a' <= c && c <= 'z')
    ||| ('A' <= c && c <= 'Z')
    ||| ('0' <= c && c <= '9')
    ||| c == '.'
    ||| c == '_'
    ||| c == '-'
}

pub open spec fn sanitize_char(c: char) -> char {
    if is_safe_filename_char(c) {
        c
    } else {
        '_'
    }
}

/// A blank name becomes `document.pdf`; otherwise every character outside
/// ASCII letters, digits, `.`, `_` and `-` becomes `_`.
pub open spec fn sanitized_filename(name: Seq<char>) -> Seq<char> {
    if trim(name).len() == 0 {
        "document.pdf"@
    } else {
        name.map_values(|c: char| sanitize_char(c))
    }
}

/// Makes a request's file name safe to use as a storage key and download name.
pub fn sanitize_filename(name: &str) -> (r: String)
    ensures
        r@ == sanitized_filename(name@),
{
    let v = chars_of(name);
    let t = trimmed_chars(&v);
    if t.len() == 0 {
        return String::from_str("document.pdf");
    }
    let mut out: Vec<char> = Vec::new();
    let mut i: usize = 0;
    while i < v.len()
        invariant
            i <= v.len(),
            out@ == v@.take(i as int).map_values(|c: char| sanitize_char(c)),
        decreases v.len() - i,
    {
        let c = v[i];
        let safe = ('a' <= c && c <= 'z') || ('A' <= c && c <= 'Z') || ('0' <= c && c <= '9')
            || c == '.' || c == '_' || c == '-';
        if safe {
            out.push(c);
        } else {
            out.push('_');
        }
        i = i + 1;
        assert(v@.take(i as int).map_values(|c: char| sanitize_char(c)) =~= v@.take(
            (i - 1) as int,
        ).map_values(|c: char| sanitize_char(c)).push(sanitize_char(c)));
    }
    assert(v@.take(v.len() as int) == v@);
    string_from_chars(&out)
}

proof fn lemma_trim_start_keeps_non_space(s: Seq<char>)
    requires
        s.len() > 0,
        forall|i: int| 0 <= i < s.len() ==> !is_white_space(#[trigger] s[i]),
    ensures
        trim(s) == s,
{
    assert(crate::text::trim_start(s) == s);
    assert(crate::text::trim_end(s) == s);
}

/// Every character of a sanitized name is safe, and sanitizing it again changes nothing.
pub proof fn lemma_sanitize_idempotent(name: Seq<char>)
    ensures
        forall|i: int|
            0 <= i < sanitized_filename(name).len() ==> is_safe_filename_char(
                #[trigger] sanitized_filename(name)[i],
            ),
        sanitized_filename(sanitized_filename(name)) == sanitized_filename(name),
{
    reveal_strlit("document.pdf");
    let s = sanitized_filename(name);
    assert(s.len() > 0) by {
        if trim(name).len() != 0 {
            assert(trim(name).len() <= name.len()) by {
                lemma_trim_len(name);
            }
        }
    }
    assert(forall|i: int| 0 <= i < s.len() ==> !is_white_space(#[trigger] s[i]));
    lemma_trim_start_keeps_non_space(s);
    assert(s.map_values(|c: char| sanitize_char(c)) =~= s);
}

/// A name that is not blank keeps its length; each ASCII letter, ASCII digit, `.`, `_` and
/// `-` stays where it was, and every other character becomes `_`. A blank name becomes
/// `document.pdf`.
pub proof fn lemma_sanitize_keeps_safe_chars(name: Seq<char>)
    ensures
        trim(name).len() == 0 ==> sanitized_filename(name) == "document.pdf"@,
        trim(name).len() != 0 ==> sanitized_filename(name).len() == name.len(),
        trim(name).len() != 0 ==> forall|i: int|
            0 <= i < name.len() ==> {
                let c = name[i];
                let kept = ('a' <= c && c <= 'z') || ('A' <= c && c <= 'Z') || ('0' <= c && c <= '9')
                    || c == '.' || c == '_' || c == '-';
                &&& kept ==> #[trigger] sanitized_filename(name)[i] == c
                &&& !kept ==> sanitized_filename(name)[i] == '_'
            },
{
}

proof fn lemma_trim_len(s: Seq<char>)
    ensures
        trim(s).len() <= s.len(),
{
    lemma_trim_start_len(s);
    lemma_trim_end_len(crate::text::trim_start(s));
}

proof fn lemma_trim_start_len(s: Seq<char>)
    ensures
        crate::text::trim_start(s).len() <= s.len(),
    decreases s.len(),
{
    if s.len() > 0 {
        lemma_trim_start_len(s.drop_first());
    }
}

proof fn lemma_trim_end_len(s: Seq<char>)
    ensures
        crate::text::trim_end(s).len() <= s.len(),
    decreases s.len(),
{
    if s.len() > 0 {
        lemma_trim_end_len(s.drop_last());
    }
}

} // verus!

verus! {

// ---------------------------------------------------------------------------
// CSS lengths (`"20mm"`, `"1in"`).
// ---------------------------------------------------------------------------

/// The units a margin may be given in.
#[derive(Clone, Copy, Debug, PartialEq, Eq, Structural)]
pub enum CssUnit {
    Pt,
    Px,
    In,
    Cm,
    Mm,
}

pub open spec fn is_ascii_alpha(c: char) -> bool {
    ('a' <= c && c <= 'z') || ('A' <= c && c <= 'Z')
}

/// The position of the first ASCII letter in `s`, if any.
pub open spec fn first_alpha_index(s: Seq<char>) -> Option<int> {
    if exists|k: int| 0 <= k < s.len() && is_ascii_alpha(s[k]) && forall|j: int| 0 <= j < k ==> !is_ascii_alpha(s[j]) {
        Some(choose|k: int| 0 <= k < s.len() && is_ascii_alpha(s[k]) && forall|j: int| 0 <= j < k ==> !is_ascii_alpha(s[j]))
    } else {
        None
    }
}

/// How a length splits into its number text and its unit text: the length is trimmed,
/// the unit starts at the first ASCII letter, and the number text is trimmed again.
pub open spec fn css_length_parts(s: Seq<char>) -> Result<(Seq<char>, Seq<char>), Seq<char>> {
    let t = trim(s);
    match first_alpha_index(t) {
        Some(i) => Ok((trim(t.subrange(0, i)), t.subrange(i, t.len() as int))),
        None => Err("missing unit in length '"@ + t + "'"@),
    }
}

proof fn lemma_trim_keeps_solid_ends(s: Seq<char>)
    requires
        s.len() > 0 ==> !is_white_space(s[0]) && !is_white_space(s.last()),
    ensures
        trim(s) == s,
{
    assert(crate::text::trim_start(s) == s);
    assert(crate::text::trim_end(s) == s);
}

/// A length written as a number followed by a unit splits into exactly that number and
/// that unit: the unit starts at its first letter and runs to the end, and the number is
/// everything before it, when the number holds no ASCII letter and neither part has white
/// space at its outer ends.
pub proof fn lemma_css_length_split(n: Seq<char>, u: Seq<char>)
    requires
        forall|i: int| 0 <= i < n.len() ==> !is_ascii_alpha(#[trigger] n[i]),
        n.len() > 0 ==> !is_white_space(n[0]) && !is_white_space(n.last()),
        u.len() > 0,
        is_ascii_alpha(u[0]),
        !is_white_space(u.last()),
    ensures
        css_length_parts(n + u) == Ok::<(Seq<char>, Seq<char>), Seq<char>>((n, u)),
{
    let t = n + u;
    let k = n.len() as int;
    assert(t.last() == u.last());
    if n.len() > 0 {
        assert(t[0] == n[0]);
    } else {
        assert(t[0] == u[0]);
        assert(!is_white_space(u[0]));
    }
    lemma_trim_keeps_solid_ends(t);
    lemma_trim_keeps_solid_ends(n);
    assert(t[k] == u[0]);
    assert(exists|j: int| 0 <= j < t.len() && is_ascii_alpha(t[j]) && forall|i: int| 0 <= i < j ==> !is_ascii_alpha(t[i])) by {
        assert forall|i: int| 0 <= i < k implies !is_ascii_alpha(t[i]) by {
            assert(t[i] == n[i]);
        }
    }
    let w = choose|j: int| 0 <= j < t.len() && is_ascii_alpha(t[j]) && forall|i: int| 0 <= i < j ==> !is_ascii_alpha(t[i]);
    assert(w == k) by {
        if w < k {
            assert(t[w] == n[w]);
        }
        if k < w {
            assert(!is_ascii_alpha(t[k]));
        }
    }
    assert(first_alpha_index(t) == Some(k));
    assert(t.subrange(0, k) == n);
    assert(t.subrange(k, t.len() as int) == u);
}

/// Splits a CSS length into its number text and unit text.
pub fn split_css_length(s: &str) -> (r: Result<(String, String), String>)
    ensures
        match (r, css_length_parts(s@)) {
            (Ok((n, u)), Ok((m, w))) => n@ == m && u@ == w,
            (Err(e), Err(f)) => e@ == f,
            _ => false,
        },
{
    let v = chars_of(s);
    let t = trimmed_chars(&v);
    let mut i: usize = 0;
    while i < t.len()
        invariant
            i <= t.len(),
            t@ == trim(s@),
            forall|j: int| 0 <= j < i ==> !is_ascii_alpha(t@[j]),
        decreases t.len() - i,
    {
        let c = t[i];
        if ('a' <= c && c <= 'z') || ('A' <= c && c <= 'Z') {
            assert(is_ascii_alpha(t@[i as int]));
            assert(exists|k: int|
                0 <= k < t@.len() && is_ascii_alpha(t@[k]) && forall|j: int|
                    0 <= j < k ==> !is_ascii_alpha(t@[j]));
            let ghost w = choose|k: int|
                0 <= k < t@.len() && is_ascii_alpha(t@[k]) && forall|j: int|
                    0 <= j < k ==> !is_ascii_alpha(t@[j]);
            assert(w == i) by {
                if w < i {
                    assert(!is_ascii_alpha(t@[w]));
                }
                if i < w {
                    assert(!is_ascii_alpha(t@[i as int]));
                }
            }
            assert(first_alpha_index(t@) == Some(i as int));
            let (a, b) = trim_bounds(&t, 0, i);
            let num = sub_chars(&t, a, b);
            assert(css_length_parts(s@) == Ok::<(Seq<char>, Seq<char>), Seq<char>>(
                (trim(t@.subrange(0, i as int)), t@.subrange(i as int, t@.len() as int)),
            ));
            let unit = sub_chars(&t, i, t.len());
            return Ok((string_from_chars(&num), string_from_chars(&unit)));
        }
        i = i + 1;
    }
    let mut m: Vec<char> = Vec::new();
    push_str(&mut m, "missing unit in length '");
    push_chars(&mut m, &t);
    push_str(&mut m, "'");
    Err(string_from_chars(&m))
}

/// The unit a unit text names, if it is one of `pt`, `px`, `in`, `cm`, `mm`.
pub open spec fn css_unit_of(u: Seq<char>) -> Result<CssUnit, Seq<char>> {
    if u == "pt"@ {
        Ok(CssUnit::Pt)
    } else if u == "px"@ {
        Ok(CssUnit::Px)
    } else if u == "in"@ {
        Ok(CssUnit::In)
    } else if u == "cm"@ {
        Ok(CssUnit::Cm)
    } else if u == "mm"@ {
        Ok(CssUnit::Mm)
    } else {
        Err("unsupported unit '"@ + u + "'"@)
    }
}

fn is_unit(v: &Vec<char>, name: &str) -> (b: bool)
    ensures
        b == (v@ == name@),
{
    let n = chars_of(name);
    chars_eq(v, &n)
}

/// The text that names a unit in a CSS length.
pub open spec fn css_unit_name(k: CssUnit) -> Seq<char> {
    match k {
        CssUnit::Pt => "pt"@,
        CssUnit::Px => "px"@,
        CssUnit::In => "in"@,
        CssUnit::Cm => "cm"@,
        CssUnit::Mm => "mm"@,
    }
}

/// Each unit is read from its own name and from no other text: a unit read back spells
/// the text it was read from, and a text that names no unit is refused.
pub proof fn lemma_css_unit_names(u: Seq<char>, k: CssUnit)
    ensures
        css_unit_of(u) matches Ok(j) ==> css_unit_name(j) == u,
        css_unit_of(css_unit_name(k)) == Ok::<CssUnit, Seq<char>>(k),
        css_unit_of(u) is Err <==> (forall|j: CssUnit| css_unit_name(j) != u),
{
    reveal_strlit("pt");
    reveal_strlit("px");
    reveal_strlit("in");
    reveal_strlit("cm");
    reveal_strlit("mm");
    assert("px"@ != "pt"@) by { assert("px"@[1] != "pt"@[1]); }
    assert("in"@ != "pt"@ && "in"@ != "px"@) by { assert("in"@[0] != "pt"@[0]); }
    assert("cm"@ != "pt"@ && "cm"@ != "px"@ && "cm"@ != "in"@) by { assert("cm"@[0] != "pt"@[0]); }
    assert("mm"@ != "pt"@ && "mm"@ != "px"@ && "mm"@ != "in"@ && "mm"@ != "cm"@) by {
        assert("mm"@[0] != "pt"@[0]);
    }
    if css_unit_of(u) is Err {
        assert forall|j: CssUnit| css_unit_name(j) != u by {
            match j {
                CssUnit::Pt => {},
                CssUnit::Px => {},
                CssUnit::In => {},
                CssUnit::Cm => {},
                CssUnit::Mm => {},
            }
        }
    } else {
        let j = css_unit_of(u)->Ok_0;
        assert(css_unit_name(j) == u);
    }
}

impl CssUnit {
    /// Reads a unit text (exact, case-sensitive).
    pub fn parse(u: &str) -> (r: Result<CssUnit, String>)
        ensures
            match (r, css_unit_of(u@)) {
                (Ok(a), Ok(b)) => a == b,
                (Err(e), Err(f)) => e@ == f,
                _ => false,
            },
    {
        let v = chars_of(u);
        if is_unit(&v, "pt") {
            Ok(CssUnit::Pt)
        } else if is_unit(&v, "px") {
            Ok(CssUnit::Px)
        } else if is_unit(&v, "in") {
            Ok(CssUnit::In)
        } else if is_unit(&v, "cm") {
            Ok(CssUnit::Cm)
        } else if is_unit(&v, "mm") {
            Ok(CssUnit::Mm)
        } else {
            let mut m: Vec<char> = Vec::new();
            push_str(&mut m, "unsupported unit '");
            push_chars(&mut m, &v);
            push_str(&mut m, "'");
            Err(string_from_chars(&m))
        }
    }
}

} // verus!
