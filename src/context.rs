//! Match tagging, per-match context windows, and grouped rendering.

use crate::entry::{
    decimal, digits, entry, format_entry, format_stream_entry, lemma_decimal_digits,
    lemma_entry_mark, mark, stream_entry,
};
use crate::pattern::{regex_finds, Pattern};
use vstd::prelude::*;
use vstd::string::*;

verus! {

/// The indices below `n` of the lines that the pattern matches, ascending.
pub open spec fn tags_upto(pattern: Seq<char>, lines: Seq<Seq<char>>, n: int) -> Seq<int>
    decreases n,
{
    if n <= 0 {
        seq![]
    } else {
        let prev = tags_upto(pattern, lines, n - 1);
        if regex_finds(pattern, lines[n - 1]) {
            prev.push(n - 1)
        } else {
            prev
        }
    }
}

/// The tags of a whole input: the indices of all matching lines, ascending.
pub open spec fn tags_of(pattern: Seq<char>, lines: Seq<Seq<char>>) -> Seq<int> {
    tags_upto(pattern, lines, lines.len() as int)
}

/// First index of the window of `tag`: `tag - radius`, clamped at 0.
pub open spec fn window_start(tag: int, radius: int) -> int {
    if tag >= radius {
        tag - radius
    } else {
        0
    }
}

/// One past the last existing index of the window of `tag`.
pub open spec fn window_end(tag: int, radius: int, len: int) -> int {
    if tag + radius < len {
        tag + radius + 1
    } else {
        len
    }
}

/// The buffer of `tag`: one entry for each existing line index of
/// `[max(0, tag - radius), tag + radius]`, ascending.
pub open spec fn window(lines: Seq<Seq<char>>, tag: int, radius: int) -> Seq<Seq<char>> {
    let lo = window_start(tag, radius);
    let hi = window_end(tag, radius, lines.len() as int);
    Seq::new(
        (if hi > lo { hi - lo } else { 0 }) as nat,
        |k: int| entry((lo + k) as nat, lines[lo + k], tag as nat),
    )
}

/// One buffer per tag, in tag order.
pub open spec fn windows(lines: Seq<Seq<char>>, tags: Seq<int>, radius: int) -> Seq<
    Seq<Seq<char>>,
> {
    Seq::new(tags.len(), |j: int| window(lines, tags[j], radius))
}

/// The line that stands between two groups.
pub open spec fn separator() -> Seq<char> {
    seq!['-', '-']
}

/// The buffers' entries in order, with a separator line before every buffer
/// but the first.
pub open spec fn rendered(bufs: Seq<Seq<Seq<char>>>) -> Seq<Seq<char>>
    decreases bufs.len(),
{
    if bufs.len() == 0 {
        seq![]
    } else if bufs.len() == 1 {
        bufs[0]
    } else {
        rendered(bufs.drop_last()) + seq![separator()] + bufs.last()
    }
}

/// The whole grouped output for an input: nothing when no line matches.
pub open spec fn grouped_output(pattern: Seq<char>, lines: Seq<Seq<char>>, radius: int) -> Seq<
    Seq<char>,
> {
    rendered(windows(lines, tags_of(pattern, lines), radius))
}

/// The indices of the lines that `pattern` matches, ascending, each once.
pub fn tag(lines: &Vec<String>, pattern: &Pattern) -> (tags: Vec<usize>)
    ensures
        tags@.map_values(|t: usize| t as int) == tags_of(pattern@, lines.deep_view()),
{
    let ghost text = lines.deep_view();
    let mut tags: Vec<usize> = Vec::new();
    let mut i: usize = 0;
    while i < lines.len()
        invariant
            i <= lines.len(),
            text == lines.deep_view(),
            tags@.map_values(|t: usize| t as int) == tags_upto(pattern@, text, i as int),
        decreases lines.len() - i,
    {
        let ghost before = tags@;
        if pattern.is_match(lines[i].as_str()) {
            tags.push(i);
            assert(tags@.map_values(|t: usize| t as int) =~= before.map_values(
                |t: usize| t as int,
            ).push(i as int));
        }
        i = i + 1;
    }
    tags
}

/// The buffer of one tag: the entries of the lines in its window, ascending.
pub fn window_buffer(lines: &Vec<String>, tag: usize, radius: usize) -> (buf: Vec<String>)
    requires
        tag < lines.len(),
    ensures
        buf.deep_view() == window(lines.deep_view(), tag as int, radius as int),
{
    let ghost text = lines.deep_view();
    let lo: usize = if tag >= radius {
        tag - radius
    } else {
        0
    };
    let hi: usize = if lines.len() - tag > radius {
        tag + radius + 1
    } else {
        lines.len()
    };
    let mut buf: Vec<String> = Vec::new();
    let mut i: usize = lo;
    while i < hi
        invariant
            lo <= i <= hi <= lines.len(),
            lo as int == window_start(tag as int, radius as int),
            hi as int == window_end(tag as int, radius as int, lines.len() as int),
            text == lines.deep_view(),
            buf.deep_view() =~= Seq::new(
                (i - lo) as nat,
                |k: int| entry((lo + k) as nat, text[lo + k], tag as nat),
            ),
        decreases hi - i,
    {
        let e = format_entry(i, lines[i].as_str(), tag);
        let ghost prev = buf.deep_view();
        buf.push(e);
        assert(buf.deep_view() =~= prev.push(e@));
        i = i + 1;
    }
    buf
}

/// One buffer per tag, in tag order. Windows that overlap are not merged:
/// each buffer lists its own lines.
pub fn assemble(lines: &Vec<String>, tags: &Vec<usize>, radius: usize) -> (bufs: Vec<Vec<String>>)
    requires
        forall|j: int| 0 <= j < tags.len() ==> tags[j] < lines.len(),
    ensures
        bufs.deep_view() == windows(
            lines.deep_view(),
            tags@.map_values(|t: usize| t as int),
            radius as int,
        ),
{
    let ghost tag_seq = tags@.map_values(|t: usize| t as int);
    let mut bufs: Vec<Vec<String>> = Vec::new();
    let mut j: usize = 0;
    while j < tags.len()
        invariant
            j <= tags.len(),
            forall|m: int| 0 <= m < tags.len() ==> tags[m] < lines.len(),
            tag_seq == tags@.map_values(|t: usize| t as int),
            bufs.deep_view() =~= Seq::new(
                j as nat,
                |m: int| window(lines.deep_view(), tag_seq[m], radius as int),
            ),
        decreases tags.len() - j,
    {
        let buf = window_buffer(lines, tags[j], radius);
        let ghost prev = bufs.deep_view();
        bufs.push(buf);
        assert(bufs.deep_view() =~= prev.push(buf.deep_view()));
        j = j + 1;
    }
    bufs
}

/// The lines of the grouped output: each buffer's entries, with a `--` line
/// between consecutive buffers.
pub fn render(bufs: &Vec<Vec<String>>) -> (out: Vec<String>)
    ensures
        out.deep_view() == rendered(bufs.deep_view()),
{
    let ghost all = bufs.deep_view();
    let mut out: Vec<String> = Vec::new();
    let mut j: usize = 0;
    while j < bufs.len()
        invariant
            j <= bufs.len(),
            all == bufs.deep_view(),
            out.deep_view() == rendered(all.take(j as int)),
        decreases bufs.len() - j,
    {
        let ghost before = out.deep_view();
        if j > 0 {
            let sep = String::from_str("--");
            proof {
                reveal_strlit("--");
                assert(sep@ =~= separator());
            }
            out.push(sep);
            assert(out.deep_view() =~= before.push(separator()));
        }
        let mut k: usize = 0;
        while k < bufs[j].len()
            invariant
                j < bufs.len(),
                k <= bufs[j as int].len(),
                all == bufs.deep_view(),
                out.deep_view() =~= before + (if j > 0 {
                    seq![separator()]
                } else {
                    seq![]
                }) + all[j as int].take(k as int),
            decreases bufs[j as int].len() - k,
        {
            let ghost prev = out.deep_view();
            let line = bufs[j][k].clone();
            out.push(line);
            assert(out.deep_view() =~= prev.push(all[j as int][k as int]));
            assert(all[j as int].take(k + 1) =~= all[j as int].take(k as int).push(
                all[j as int][k as int],
            ));
            k = k + 1;
        }
        proof {
            assert(all.take(j + 1).drop_last() =~= all.take(j as int));
            assert(all[j as int].take(k as int) =~= all[j as int]);
            if j == 0 {
                assert(out.deep_view() =~= rendered(all.take(1)));
            }
        }
        j = j + 1;
    }
    assert(all.take(bufs.len() as int) =~= all);
    out
}


proof fn lemma_tags_upto(pattern: Seq<char>, lines: Seq<Seq<char>>, n: int)
    requires
        0 <= n <= lines.len(),
    ensures
        forall|k: int|
            0 <= k < tags_upto(pattern, lines, n).len() ==> 0 <= #[trigger] tags_upto(
                pattern,
                lines,
                n,
            )[k] < n && regex_finds(pattern, lines[tags_upto(pattern, lines, n)[k]]),
        forall|k1: int, k2: int|
            0 <= k1 < k2 < tags_upto(pattern, lines, n).len() ==> #[trigger] tags_upto(
                pattern,
                lines,
                n,
            )[k1] < #[trigger] tags_upto(pattern, lines, n)[k2],
        forall|i: int|
            0 <= i < n && regex_finds(pattern, #[trigger] lines[i]) ==> tags_upto(
                pattern,
                lines,
                n,
            ).contains(i),
    decreases n,
{
    if n > 0 {
        lemma_tags_upto(pattern, lines, n - 1);
        let prev = tags_upto(pattern, lines, n - 1);
        if regex_finds(pattern, lines[n - 1]) {
            assert(prev.push(n - 1)[prev.len() as int] == n - 1);
            assert forall|i: int|
                0 <= i < n && regex_finds(pattern, #[trigger] lines[i]) implies prev.push(
                n - 1,
            ).contains(i) by {
                if i < n - 1 {
                    let k = choose|k: int| 0 <= k < prev.len() && prev[k] == i;
                    assert(prev.push(n - 1)[k] == i);
                }
            }
        }
    }
}

/// Tagging is exact: the tags are strictly ascending (so no line is tagged
/// twice), each is the index of a line that the pattern matches, and every
/// line that the pattern matches is tagged.
pub proof fn lemma_tags_exact(pattern: Seq<char>, lines: Seq<Seq<char>>)
    ensures
        forall|k: int|
            0 <= k < tags_of(pattern, lines).len() ==> 0 <= #[trigger] tags_of(pattern, lines)[k]
                < lines.len() && regex_finds(pattern, lines[tags_of(pattern, lines)[k]]),
        forall|k1: int, k2: int|
            0 <= k1 < k2 < tags_of(pattern, lines).len() ==> #[trigger] tags_of(pattern, lines)[k1]
                < #[trigger] tags_of(pattern, lines)[k2],
        forall|i: int|
            0 <= i < lines.len() && regex_finds(pattern, #[trigger] lines[i]) ==> tags_of(
                pattern,
                lines,
            ).contains(i),
{
    lemma_tags_upto(pattern, lines, lines.len() as int);
}

/// The grouped output for `lines`: the windows of all matching lines, with
/// `--` between groups; nothing at all when no line matches.
pub fn search(lines: &Vec<String>, pattern: &Pattern, radius: usize) -> (out: Vec<String>)
    ensures
        out.deep_view() == grouped_output(pattern@, lines.deep_view(), radius as int),
        tags_of(pattern@, lines.deep_view()).len() == 0 ==> out@.len() == 0,
{
    let tags = tag(lines, pattern);
    proof {
        lemma_tags_exact(pattern@, lines.deep_view());
        assert forall|j: int| 0 <= j < tags.len() implies tags[j] < lines.len() by {
            assert(tags@.map_values(|t: usize| t as int)[j] == tags[j] as int);
        }
    }
    if tags.len() == 0 {
        let out: Vec<String> = Vec::new();
        assert(windows(lines.deep_view(), tags_of(pattern@, lines.deep_view()), radius as int)
            =~= seq![]);
        assert(out.deep_view() =~= seq![]);
        return out;
    }
    let bufs = assemble(lines, &tags, radius);
    render(&bufs)
}

/// The streaming output for line `index`: `{index}:\t {line}` when the pattern
/// matches the line, nothing otherwise.
pub fn stream_line(index: usize, line: &str, pattern: &Pattern) -> (r: Option<String>)
    ensures
        r is Some <==> regex_finds(pattern@, line@),
        r matches Some(s) ==> s@ == stream_entry(index as nat, line@),
{
    if pattern.is_match(line) {
        Some(format_stream_entry(index, line))
    } else {
        None
    }
}

/// Window correctness: the buffer of `tag` has one entry for each existing line
/// index `i` with `max(0, tag - radius) <= i <= tag + radius`, in ascending
/// order, and nothing else.
pub proof fn lemma_window_exact(lines: Seq<Seq<char>>, tag: int, radius: int)
    requires
        0 <= tag < lines.len(),
        0 <= radius,
    ensures
        window(lines, tag, radius).len() == window_end(tag, radius, lines.len() as int)
            - window_start(tag, radius),
        forall|k: int|
            0 <= k < window(lines, tag, radius).len() ==> {
                let i = window_start(tag, radius) + k;
                &&& 0 <= i < lines.len()
                &&& tag - radius <= i <= tag + radius
                &&& #[trigger] window(lines, tag, radius)[k] == entry(i as nat, lines[i], tag as nat)
            },
        forall|i: int|
            0 <= i < lines.len() && tag - radius <= i <= tag + radius ==> #[trigger] window(
                lines,
                tag,
                radius,
            )[i - window_start(tag, radius)] == entry(i as nat, lines[i], tag as nat),
{
}

/// Exact-match marking: in the buffer of `tag`, the entry of the tag's own line
/// carries `:` after its index, and every other entry carries `-`.
pub proof fn lemma_window_marks(lines: Seq<Seq<char>>, tag: int, radius: int)
    requires
        0 <= tag < lines.len(),
        0 <= radius,
    ensures
        forall|k: int|
            #![trigger window(lines, tag, radius)[k]]
            0 <= k < window(lines, tag, radius).len() ==> window(lines, tag, radius)[k][decimal(
                (window_start(tag, radius) + k) as nat,
            ).len() as int] == mark((window_start(tag, radius) + k) as nat, tag as nat),
        window(lines, tag, radius)[tag - window_start(tag, radius)][decimal(tag as nat).len() as int]
            == ':',
{
    assert forall|k: int| 0 <= k < window(lines, tag, radius).len() implies #[trigger] window(
        lines,
        tag,
        radius,
    )[k][decimal((window_start(tag, radius) + k) as nat).len() as int] == mark(
        (window_start(tag, radius) + k) as nat,
        tag as nat,
    ) by {
        let i = (window_start(tag, radius) + k) as nat;
        lemma_entry_mark(i, lines[i as int], tag as nat);
    }
    lemma_entry_mark(tag as nat, lines[tag], tag as nat);
}

/// No false merging: two different tags get two buffers even when their
/// windows overlap, and a line inside both windows is listed in each of them,
/// marked for that buffer's own tag.
pub proof fn lemma_overlap_not_merged(
    lines: Seq<Seq<char>>,
    tags: Seq<int>,
    radius: int,
    j1: int,
    j2: int,
    i: int,
)
    requires
        forall|j: int| 0 <= j < tags.len() ==> 0 <= #[trigger] tags[j] < lines.len(),
        0 <= radius,
        0 <= j1 < tags.len(),
        0 <= j2 < tags.len(),
        j1 != j2,
        0 <= i < lines.len(),
        tags[j1] - radius <= i <= tags[j1] + radius,
        tags[j2] - radius <= i <= tags[j2] + radius,
    ensures
        windows(lines, tags, radius).len() == tags.len(),
        windows(lines, tags, radius)[j1][i - window_start(tags[j1], radius)] == entry(
            i as nat,
            lines[i],
            tags[j1] as nat,
        ),
        windows(lines, tags, radius)[j2][i - window_start(tags[j2], radius)] == entry(
            i as nat,
            lines[i],
            tags[j2] as nat,
        ),
{
    lemma_window_exact(lines, tags[j1], radius);
    lemma_window_exact(lines, tags[j2], radius);
}

/// Whether a line is the group separator.
pub open spec fn is_separator(line: Seq<char>) -> bool {
    line == separator()
}

/// Separator placement: rendering `n >= 1` buffers whose entries are not
/// separators gives exactly `n - 1` separator lines, and the output is the
/// rendering of the first `n - 1` buffers, a separator, then the last buffer.
pub proof fn lemma_separator_count(bufs: Seq<Seq<Seq<char>>>)
    requires
        bufs.len() >= 1,
        forall|j: int, k: int|
            0 <= j < bufs.len() && 0 <= k < bufs[j].len() ==> !is_separator(#[trigger] bufs[j][k]),
    ensures
        rendered(bufs).filter(|l: Seq<char>| is_separator(l)).len() == bufs.len() - 1,
        bufs.len() >= 2 ==> rendered(bufs) == rendered(bufs.drop_last()) + seq![separator()]
            + bufs.last(),
    decreases bufs.len(),
{
    broadcast use Seq::filter_distributes_over_add;

    let pred = |l: Seq<char>| is_separator(l);
    let last = bufs.last();
    assert(last.all(|x: Seq<char>| !pred(x))) by {
        assert forall|k: int| 0 <= k < last.len() implies !pred(#[trigger] last[k]) by {
            assert(bufs[bufs.len() - 1][k] == last[k]);
        }
    }
    last.lemma_all_neg_filter_empty(pred);
    if bufs.len() >= 2 {
        let rest = bufs.drop_last();
        assert forall|j: int, k: int|
            0 <= j < rest.len() && 0 <= k < rest[j].len() implies !is_separator(
            #[trigger] rest[j][k],
        ) by {
            assert(rest[j] == bufs[j]);
        }
        lemma_separator_count(rest);
        let sep: Seq<Seq<char>> = seq![separator()];
        reveal(Seq::filter);
        assert(sep.filter(pred) =~= sep);
        assert(rendered(bufs).filter(pred) == rendered(rest).filter(pred) + sep.filter(pred)
            + last.filter(pred));
    }
}

/// Separator placement for a whole search: when `n >= 1` lines match, the
/// grouped output holds exactly `n - 1` separator lines.
pub proof fn lemma_grouped_separators(pattern: Seq<char>, lines: Seq<Seq<char>>, radius: int)
    requires
        0 <= radius,
        tags_of(pattern, lines).len() >= 1,
    ensures
        grouped_output(pattern, lines, radius).filter(|l: Seq<char>| is_separator(l)).len()
            == tags_of(pattern, lines).len() - 1,
{
    let tags = tags_of(pattern, lines);
    let bufs = windows(lines, tags, radius);
    lemma_tags_exact(pattern, lines);
    assert forall|j: int, k: int|
        0 <= j < bufs.len() && 0 <= k < bufs[j].len() implies !is_separator(
        #[trigger] bufs[j][k],
    ) by {
        let t = tags[j];
        lemma_window_exact(lines, t, radius);
        let i = (window_start(t, radius) + k) as nat;
        lemma_entry_mark(i, lines[i as int], t as nat);
        lemma_decimal_digits(i);
        if bufs[j][k] == separator() {
            assert(digits().contains(bufs[j][k][0]));
            assert(separator()[0] == '-');
        }
    }
    lemma_separator_count(bufs);
}

} // verus!
