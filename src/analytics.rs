use vstd::prelude::*;

use crate::filter::{should_skip, skipped};
use crate::scan::{Contents, Entry, IoError};
use crate::text::{append, append_decimal, decimal};

verus! {

broadcast use {vstd::std_specs::vec::group_vec_axioms, vstd::seq::group_seq_axioms};

/// The number of bands of the histogram.
pub const BANDS: usize = 11;

/// The band of a file of `n` lines: `< 100`, `100..=500`, `501..=1000`, then
/// one band per thousand up to `7001..=8000`, and `> 8000`.
pub open spec fn band(n: nat) -> int {
    if n < 100 {
        0
    } else if n <= 500 {
        1
    } else if n <= 1000 {
        2
    } else if n <= 2000 {
        3
    } else if n <= 3000 {
        4
    } else if n <= 4000 {
        5
    } else if n <= 5000 {
        6
    } else if n <= 6000 {
        7
    } else if n <= 7000 {
        8
    } else if n <= 8000 {
        9
    } else {
        10
    }
}

/// The least line count of each band.
pub open spec fn band_low() -> Seq<int> {
    seq![0int, 100, 501, 1001, 2001, 3001, 4001, 5001, 6001, 7001, 8001]
}

/// The greatest line count of each band but the last, which has no bound.
pub open spec fn band_high() -> Seq<int> {
    seq![99int, 500, 1000, 2000, 3000, 4000, 5000, 6000, 7000, 8000]
}

/// Whether `n` lies within the bounds of band `b`.
pub open spec fn in_band(n: nat, b: int) -> bool {
    &&& 0 <= b < 11
    &&& band_low()[b] <= n
    &&& b == 10 || n <= band_high()[b]
}

/// The histogram of a sequence of line counts: for each band, how many of
/// the counts fall in it.
pub open spec fn histogram(s: Seq<nat>) -> Seq<int>
    decreases s.len(),
{
    if s.len() == 0 {
        Seq::new(11, |i: int| 0int)
    } else {
        let h = histogram(s.drop_last());
        h.update(band(s.last()), h[band(s.last())] + 1)
    }
}

/// The sum of the eleven counters of a histogram.
pub open spec fn total(h: Seq<int>) -> int {
    h[0] + h[1] + h[2] + h[3] + h[4] + h[5] + h[6] + h[7] + h[8] + h[9] + h[10]
}

/// The line counts of the files that a walk of `c` counts, in the order of
/// the walk, up to the first directory that could not be listed; and that
/// directory's failure, if there is one.
pub open spec fn contents_lines(c: Contents, ignore: Seq<String>) -> (Seq<nat>, Option<IoError>)
    decreases c, 0nat,
{
    match c {
        Contents::Unlisted(e) => (Seq::empty(), Some(e)),
        Contents::Listed(v) => entries_lines(v@, v@.len(), ignore),
    }
}

/// What the walk of the first `n` entries of `es` counts, as `contents_lines`.
pub open spec fn entries_lines(es: Seq<Entry>, n: nat, ignore: Seq<String>) -> (
    Seq<nat>,
    Option<IoError>,
)
    decreases es, n,
{
    if n == 0 || n > es.len() {
        (Seq::empty(), None)
    } else {
        let (s, err) = entries_lines(es, (n - 1) as nat, ignore);
        if err is Some {
            (s, err)
        } else {
            let (t, err2) = entry_lines(es[n - 1], ignore);
            (s + t, err2)
        }
    }
}

/// What the walk counts of one entry of a listing, as `contents_lines`.
pub open spec fn entry_lines(e: Entry, ignore: Seq<String>) -> (Seq<nat>, Option<IoError>)
    decreases e, 0nat,
{
    if skipped(e.name_of(), ignore) {
        (Seq::empty(), None)
    } else {
        match e {
            Entry::Dir { contents, .. } => contents_lines(contents, ignore),
            Entry::File { lines, .. } => match lines {
                Some(k) => (seq![k as nat], None),
                None => (Seq::empty(), None),
            },
            Entry::Other { .. } => (Seq::empty(), None),
        }
    }
}

/// Every line count falls in exactly one band, the one `band` names: the
/// bands are contiguous and cover every count.
pub proof fn lemma_band_exact(n: nat)
    ensures
        0 <= band(n) < 11,
        forall|b: int| #[trigger] in_band(n, b) <==> b == band(n),
{
    assert forall|b: int| #[trigger] in_band(n, b) <==> b == band(n) by {
        if 0 <= b < 11 {
            assert(b == 0 || b == 1 || b == 2 || b == 3 || b == 4 || b == 5 || b == 6 || b == 7
                || b == 8 || b == 9 || b == 10);
        }
    }
}

/// A histogram has eleven counters, none negative, and their sum is the
/// number of line counts it was made from.
pub proof fn lemma_histogram_total(s: Seq<nat>)
    ensures
        histogram(s).len() == 11,
        forall|i: int| 0 <= i < 11 ==> histogram(s)[i] >= 0,
        total(histogram(s)) == s.len(),
    decreases s.len(),
{
    if s.len() > 0 {
        lemma_histogram_total(s.drop_last());
    }
}

/// The counters of the histogram of a walk sum to the number of files that
/// the walk counted: files skipped by the filter or unreadable add nothing.
pub proof fn lemma_counters_sum_to_files(root: Contents, ignore: Seq<String>)
    ensures
        total(histogram(contents_lines(root, ignore).0)) == contents_lines(root, ignore).0.len(),
{
    lemma_histogram_total(contents_lines(root, ignore).0);
}

/// Counting a walk one more file further adds that file to the histogram.
proof fn lemma_histogram_push(s: Seq<nat>, k: nat)
    ensures
        histogram(s.push(k)) == histogram(s).update(band(k), histogram(s)[band(k)] + 1),
{
    assert(s.push(k).drop_last() =~= s);
}

/// The walk of more entries counts at least as many files.
proof fn lemma_entries_lines_grow(es: Seq<Entry>, i: nat, n: nat, ignore: Seq<String>)
    requires
        i <= n <= es.len(),
    ensures
        entries_lines(es, i, ignore).0.len() <= entries_lines(es, n, ignore).0.len(),
    decreases n - i,
{
    if i < n {
        lemma_entries_lines_grow(es, i, (n - 1) as nat, ignore);
    }
}

/// Once a walk of entries has met a directory that could not be listed, the
/// entries after it change nothing.
proof fn lemma_entries_lines_stop(es: Seq<Entry>, m: nat, n: nat, ignore: Seq<String>)
    requires
        m <= n <= es.len(),
        entries_lines(es, m, ignore).1 is Some,
    ensures
        entries_lines(es, n, ignore) == entries_lines(es, m, ignore),
    decreases n - m,
{
    if m < n {
        lemma_entries_lines_stop(es, m, (n - 1) as nat, ignore);
    }
}

/// The counters of two histograms added band by band.
pub open spec fn add_histograms(h1: Seq<int>, h2: Seq<int>) -> Seq<int> {
    Seq::new(11, |i: int| h1[i] + h2[i])
}

/// The histogram of two sequences one after the other is the sum of their
/// histograms.
proof fn lemma_histogram_concat(a: Seq<nat>, b: Seq<nat>)
    ensures
        histogram(a + b) == add_histograms(histogram(a), histogram(b)),
    decreases b.len(),
{
    lemma_histogram_total(a);
    lemma_histogram_total(b);
    lemma_histogram_total(a + b);
    if b.len() == 0 {
        assert(a + b =~= a);
        assert(histogram(a + b) =~= add_histograms(histogram(a), histogram(b)));
    } else {
        let c = b.drop_last();
        lemma_histogram_concat(a, c);
        assert((a + b).drop_last() =~= a + c);
        assert((a + b).last() == b.last());
        lemma_histogram_total(c);
        lemma_histogram_total(a + c);
        let l = band(b.last());
        assert(histogram(b) == histogram(c).update(l, histogram(c)[l] + 1));
        assert(histogram(a + b) == histogram(a + c).update(l, histogram(a + c)[l] + 1));
        assert(histogram(a + b) =~= add_histograms(histogram(a), histogram(b)));
    }
}

/// The walk of the first `n` entries depends on those entries alone.
proof fn lemma_entries_lines_prefix(es1: Seq<Entry>, es2: Seq<Entry>, n: nat, ignore: Seq<String>)
    requires
        n <= es1.len(),
        n <= es2.len(),
        forall|i: int| 0 <= i < n ==> es1[i] == es2[i],
    ensures
        entries_lines(es1, n, ignore) == entries_lines(es2, n, ignore),
    decreases n,
{
    if n > 0 {
        lemma_entries_lines_prefix(es1, es2, (n - 1) as nat, ignore);
    }
}

/// The sequence `es` with the items at `k` and `k + 1` exchanged.
pub open spec fn swap_adjacent<T>(es: Seq<T>, k: int) -> Seq<T> {
    es.update(k, es[k + 1int]).update(k + 1, es[k])
}

/// Exchanging two neighbouring entries changes neither whether the walk of a
/// prefix that holds both succeeds, nor its histogram when it does.
proof fn lemma_entries_lines_swap(es: Seq<Entry>, k: nat, n: nat, ignore: Seq<String>)
    requires
        k + 2 <= n <= es.len(),
    ensures
        entries_lines(es, n, ignore).1 is None <==> entries_lines(
            swap_adjacent(es, k as int),
            n,
            ignore,
        ).1 is None,
        entries_lines(es, n, ignore).1 is None ==> histogram(entries_lines(es, n, ignore).0)
            == histogram(entries_lines(swap_adjacent(es, k as int), n, ignore).0),
    decreases n,
{
    let ws = swap_adjacent(es, k as int);
    if n == k + 2 {
        lemma_entries_lines_prefix(es, ws, k, ignore);
        let (s, err) = entries_lines(es, k, ignore);
        let x = entry_lines(es[k as int], ignore);
        let y = entry_lines(es[k + 1int], ignore);
        assert(ws[k as int] == es[k + 1int]);
        assert(ws[k + 1int] == es[k as int]);
        let a1 = entries_lines(es, (k + 1) as nat, ignore);
        let b1 = entries_lines(ws, (k + 1) as nat, ignore);
        let a2 = entries_lines(es, (k + 2) as nat, ignore);
        let b2 = entries_lines(ws, (k + 2) as nat, ignore);
        if err is None {
            assert(a1 == (s + x.0, x.1));
            assert(b1 == (s + y.0, y.1));
            if x.1 is None && y.1 is None {
                assert(a2 == ((s + x.0) + y.0, y.1));
                assert(b2 == ((s + y.0) + x.0, x.1));
                lemma_histogram_concat(s + x.0, y.0);
                lemma_histogram_concat(s, x.0);
                lemma_histogram_concat(s + y.0, x.0);
                lemma_histogram_concat(s, y.0);
                lemma_histogram_total(s);
                lemma_histogram_total(x.0);
                lemma_histogram_total(y.0);
                assert(histogram(a2.0) =~= histogram(b2.0));
            }
        }
    } else {
        lemma_entries_lines_swap(es, k, (n - 1) as nat, ignore);
        assert(ws[n - 1] == es[n - 1]);
        let a = entries_lines(es, (n - 1) as nat, ignore);
        let b = entries_lines(ws, (n - 1) as nat, ignore);
        let t = entry_lines(es[n - 1], ignore);
        if a.1 is None {
            assert(entries_lines(es, n, ignore) == (a.0 + t.0, t.1));
            assert(entries_lines(ws, n, ignore) == (b.0 + t.0, t.1));
            lemma_histogram_concat(a.0, t.0);
            lemma_histogram_concat(b.0, t.0);
        }
    }
}

/// The histogram does not depend on the order in which a directory's
/// entries are listed: exchanging two neighbouring entries of a listing (and
/// so any reordering, one exchange at a time) leaves unchanged whether the
/// walk succeeds, and the histogram when it does.
pub proof fn lemma_histogram_order_free(v: Vec<Entry>, w: Vec<Entry>, k: nat, ignore: Seq<String>)
    requires
        k + 1 < v@.len(),
        w@ == swap_adjacent(v@, k as int),
    ensures
        contents_lines(Contents::Listed(v), ignore).1 is None <==> contents_lines(
            Contents::Listed(w),
            ignore,
        ).1 is None,
        contents_lines(Contents::Listed(v), ignore).1 is None ==> histogram(
            contents_lines(Contents::Listed(v), ignore).0,
        ) == histogram(contents_lines(Contents::Listed(w), ignore).0),
{
    lemma_entries_lines_swap(v@, k, v@.len(), ignore);
}

/// The label of band `b` in the printed table, padded to its column.
pub open spec fn band_label(b: int) -> Seq<char> {
    seq![
        "< 100                     "@,
        "100 ~ 500                 "@,
        "501 ~ 1000                "@,
        "1001 ~ 2000               "@,
        "2001 ~ 3000               "@,
        "3001 ~ 4000               "@,
        "4001 ~ 5000               "@,
        "5001 ~ 6000               "@,
        "6001 ~ 7000               "@,
        "7001 ~ 8000               "@,
        "> 8000                    "@,
    ][b]
}

/// The heading of the printed table.
pub open spec fn table_heading() -> Seq<char> {
    "                Analytics                 \n"@ + "Number of lines:          Number of files:\n"@
}

/// The first `n` rows of the printed table of `h`: each band's label and
/// count, one line each.
pub open spec fn table_rows(h: Seq<int>, n: nat) -> Seq<char>
    decreases n,
{
    if n == 0 {
        Seq::empty()
    } else {
        table_rows(h, (n - 1) as nat) + band_label(n - 1) + decimal(h[n - 1] as nat) + "\n"@
    }
}

/// The printed table of a histogram.
pub open spec fn table(h: Seq<int>) -> Seq<char> {
    table_heading() + table_rows(h, 11)
}

fn band_label_text(b: usize) -> (r: &'static str)
    requires
        b < 11,
    ensures
        r@ == band_label(b as int),
{
    if b == 0 {
        "< 100                     "
    } else if b == 1 {
        "100 ~ 500                 "
    } else if b == 2 {
        "501 ~ 1000                "
    } else if b == 3 {
        "1001 ~ 2000               "
    } else if b == 4 {
        "2001 ~ 3000               "
    } else if b == 5 {
        "3001 ~ 4000               "
    } else if b == 6 {
        "4001 ~ 5000               "
    } else if b == 7 {
        "5001 ~ 6000               "
    } else if b == 8 {
        "6001 ~ 7000               "
    } else if b == 9 {
        "7001 ~ 8000               "
    } else {
        "> 8000                    "
    }
}

/// Each band's count of files, by line-count band.
#[derive(Debug)]
pub struct Analytics {
    pub less_than_100: usize,
    pub between_100_and_500: usize,
    pub between_501_and_1000: usize,
    pub between_1001_and_2000: usize,
    pub between_2001_and_3000: usize,
    pub between_3001_and_4000: usize,
    pub between_4001_and_5000: usize,
    pub between_5001_and_6000: usize,
    pub between_6001_and_7000: usize,
    pub between_7001_and_8000: usize,
    pub more_than_8000: usize,
}

impl Analytics {
    /// The eleven counters, from the lowest band to the highest.
    pub open spec fn counts(&self) -> Seq<int> {
        seq![
            self.less_than_100 as int,
            self.between_100_and_500 as int,
            self.between_501_and_1000 as int,
            self.between_1001_and_2000 as int,
            self.between_2001_and_3000 as int,
            self.between_3001_and_4000 as int,
            self.between_4001_and_5000 as int,
            self.between_5001_and_6000 as int,
            self.between_6001_and_7000 as int,
            self.between_7001_and_8000 as int,
            self.more_than_8000 as int,
        ]
    }

    /// A histogram with every counter at zero.
    pub fn empty() -> (r: Analytics)
        ensures
            r.counts() == histogram(Seq::empty()),
    {
        let r = Analytics {
            less_than_100: 0,
            between_100_and_500: 0,
            between_501_and_1000: 0,
            between_1001_and_2000: 0,
            between_2001_and_3000: 0,
            between_3001_and_4000: 0,
            between_4001_and_5000: 0,
            between_5001_and_6000: 0,
            between_6001_and_7000: 0,
            between_7001_and_8000: 0,
            more_than_8000: 0,
        };
        assert(r.counts() =~= histogram(Seq::empty()));
        r
    }

    /// Counts one file of `n` lines in its band.
    pub fn add_file(&mut self, n: usize)
        requires
            total(old(self).counts()) < usize::MAX,
        ensures
            final(self).counts() == old(self).counts().update(
                band(n as nat),
                old(self).counts()[band(n as nat)] + 1,
            ),
    {
        if n < 100 {
            self.less_than_100 += 1;
        } else if n <= 500 {
            self.between_100_and_500 += 1;
        } else if n <= 1000 {
            self.between_501_and_1000 += 1;
        } else if n <= 2000 {
            self.between_1001_and_2000 += 1;
        } else if n <= 3000 {
            self.between_2001_and_3000 += 1;
        } else if n <= 4000 {
            self.between_3001_and_4000 += 1;
        } else if n <= 5000 {
            self.between_4001_and_5000 += 1;
        } else if n <= 6000 {
            self.between_5001_and_6000 += 1;
        } else if n <= 7000 {
            self.between_6001_and_7000 += 1;
        } else if n <= 8000 {
            self.between_7001_and_8000 += 1;
        } else {
            self.more_than_8000 += 1;
        }
        assert(final(self).counts() =~= old(self).counts().update(
            band(n as nat),
            old(self).counts()[band(n as nat)] + 1,
        ));
    }

    /// The histogram of every file under a directory whose listing is
    /// `root`, skipping hidden and ignored entries and files that could not be
    /// read; fails with the failure of the first directory, in walk order,
    /// that could not be listed.
    pub fn from_path(root: &Contents, ignore: &[String]) -> (r: Result<Analytics, IoError>)
        requires
            contents_lines(*root, ignore@).0.len() < usize::MAX,
        ensures
            r is Ok <==> contents_lines(*root, ignore@).1 is None,
            r matches Ok(a) ==> a.counts() == histogram(contents_lines(*root, ignore@).0),
            r matches Err(e) ==> e == contents_lines(*root, ignore@).1->Some_0,
    {
        let mut result = Analytics::empty();
        proof {
            assert(Seq::<nat>::empty() + contents_lines(*root, ignore@).0
                =~= contents_lines(*root, ignore@).0);
        }
        match result.visit_dirs(root, ignore, Ghost(Seq::empty())) {
            Ok(()) => Ok(result),
            Err(e) => Err(e),
        }
    }

    fn visit_dirs(&mut self, dir: &Contents, ignore: &[String], Ghost(pre): Ghost<Seq<nat>>) -> (r:
        Result<(), IoError>)
        requires
            old(self).counts() == histogram(pre),
            pre.len() + contents_lines(*dir, ignore@).0.len() < usize::MAX,
        ensures
            final(self).counts() == histogram(pre + contents_lines(*dir, ignore@).0),
            r is Ok <==> contents_lines(*dir, ignore@).1 is None,
            r matches Err(e) ==> e == contents_lines(*dir, ignore@).1->Some_0,
        decreases dir,
    {
        match dir {
            Contents::Unlisted(e) => {
                assert(pre + Seq::<nat>::empty() =~= pre);
                Err(e.duplicate())
            },
            Contents::Listed(entries) => {
                let ghost es = entries@;
                let mut i: usize = 0;
                assert(pre + entries_lines(es, 0, ignore@).0 =~= pre);
                while i < entries.len()
                    invariant
                        es == entries@,
                        0 <= i <= es.len(),
                        *dir == Contents::Listed(*entries),
                        entries_lines(es, i as nat, ignore@).1 is None,
                        self.counts() == histogram(pre + entries_lines(es, i as nat, ignore@).0),
                        pre.len() + entries_lines(es, es.len(), ignore@).0.len() < usize::MAX,
                    decreases es.len() - i,
                {
                    let ghost done = pre + entries_lines(es, i as nat, ignore@).0;
                    proof {
                        lemma_entries_lines_grow(es, (i + 1) as nat, es.len(), ignore@);
                    }
                    let entry = &entries[i];
                    let ghost part = entry_lines(*entry, ignore@);
                    assert(entries_lines(es, (i + 1) as nat, ignore@) == (
                        entries_lines(es, i as nat, ignore@).0 + part.0,
                        part.1,
                    ));
                    if !should_skip(entry.name(), ignore) {
                        match entry {
                            Entry::Dir { contents, .. } => {
                                assert(decreases_to!(*dir => *contents)) by {
                                    assert(decreases_to!(*entries => entries@[i as int]));
                                };
                                let res = self.visit_dirs(contents, ignore, Ghost(done));
                                assert(done + contents_lines(*contents, ignore@).0 =~= pre
                                    + entries_lines(es, (i + 1) as nat, ignore@).0);
                                if let Err(e) = res {
                                    proof {
                                        lemma_entries_lines_stop(
                                            es,
                                            (i + 1) as nat,
                                            es.len(),
                                            ignore@,
                                        );
                                    }
                                    return Err(e);
                                }
                            },
                            Entry::File { lines, .. } => {
                                if let Some(k) = lines {
                                    assert(part.0 == seq![*k as nat]);
                                    proof {
                                        lemma_histogram_total(done);
                                        lemma_histogram_push(done, *k as nat);
                                        assert(done.push(*k as nat) =~= pre + entries_lines(
                                            es,
                                            (i + 1) as nat,
                                            ignore@,
                                        ).0);
                                    }
                                    self.add_file(*k);
                                } else {
                                    assert(done =~= pre + entries_lines(
                                        es,
                                        (i + 1) as nat,
                                        ignore@,
                                    ).0);
                                }
                            },
                            Entry::Other { .. } => {
                                assert(done =~= pre + entries_lines(es, (i + 1) as nat, ignore@).0);
                            },
                        }
                    } else {
                        assert(done =~= pre + entries_lines(es, (i + 1) as nat, ignore@).0);
                    }
                    i += 1;
                }
                Ok(())
            },
        }
    }

    /// The counter of band `b`.
    pub fn count_of(&self, b: usize) -> (r: usize)
        requires
            b < 11,
        ensures
            r == self.counts()[b as int],
    {
        if b == 0 {
            self.less_than_100
        } else if b == 1 {
            self.between_100_and_500
        } else if b == 2 {
            self.between_501_and_1000
        } else if b == 3 {
            self.between_1001_and_2000
        } else if b == 4 {
            self.between_2001_and_3000
        } else if b == 5 {
            self.between_3001_and_4000
        } else if b == 6 {
            self.between_4001_and_5000
        } else if b == 7 {
            self.between_5001_and_6000
        } else if b == 8 {
            self.between_6001_and_7000
        } else if b == 9 {
            self.between_7001_and_8000
        } else {
            self.more_than_8000
        }
    }

    /// The histogram as a two-column table: a heading, then one line per
    /// band with its label and its count.
    pub fn render(&self) -> (r: String)
        ensures
            r@ == table(self.counts()),
    {
        let mut out = String::new();
        append(&mut out, "                Analytics                 \n");
        append(&mut out, "Number of lines:          Number of files:\n");
        let mut b: usize = 0;
        while b < BANDS
            invariant
                b <= 11,
                out@ == table_heading() + table_rows(self.counts(), b as nat),
            decreases 11 - b,
        {
            append(&mut out, band_label_text(b));
            append_decimal(&mut out, self.count_of(b));
            append(&mut out, "\n");
            assert(out@ =~= table_heading() + table_rows(self.counts(), (b + 1) as nat));
            b += 1;
        }
        out
    }
}

} // verus!
