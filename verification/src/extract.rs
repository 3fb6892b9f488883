//! Extraction of ban records from a line-oriented log: a line that contains
//! the target date's ban token contributes its last whitespace-delimited
//! token as the banned address.

use vstd::prelude::*;
use crate::date::{ban_token, make_ban_token, Date};

verus! {

/// `needle` occurs in `hay` at position `i`.
pub open spec fn match_at(hay: Seq<char>, needle: Seq<char>, i: int) -> bool {
    &&& 0 <= i
    &&& i + needle.len() <= hay.len()
    &&& hay.subrange(i, i + needle.len() as int) == needle
}

/// The first position at which `needle` occurs in `hay`, or -1.
pub open spec fn first_occurrence(hay: Seq<char>, needle: Seq<char>) -> int
    decreases hay.len(),
{
    if hay.len() < needle.len() {
        -1
    } else if hay.subrange(0, needle.len() as int) == needle {
        0
    } else if hay.len() == 0 {
        -1
    } else {
        let r = first_occurrence(hay.drop_first(), needle);
        if r == -1 {
            -1
        } else {
            r + 1
        }
    }
}

/// `first_occurrence` finds the earliest occurrence, or reports none.
pub proof fn lemma_first_occurrence(hay: Seq<char>, needle: Seq<char>)
    ensures
        first_occurrence(hay, needle) == -1 ==> forall|i: int| !match_at(hay, needle, i),
        first_occurrence(hay, needle) != -1 ==> match_at(hay, needle, first_occurrence(hay, needle))
            && (forall|i: int| 0 <= i < first_occurrence(hay, needle) ==> !match_at(hay, needle, i)),
    decreases hay.len(),
{
    let fo = first_occurrence(hay, needle);
    if hay.len() < needle.len() {
    } else if hay.subrange(0, needle.len() as int) == needle {
    } else if hay.len() == 0 {
        assert(needle.len() == 0);
        assert(hay.subrange(0, 0) =~= needle);
    } else {
        lemma_first_occurrence(hay.drop_first(), needle);
        assert forall|i: int| 1 <= i && match_at(hay, needle, i) implies match_at(
            hay.drop_first(),
            needle,
            i - 1,
        ) by {
            assert(hay.drop_first().subrange(i - 1, i - 1 + needle.len() as int) =~= hay.subrange(
                i,
                i + needle.len() as int,
            ));
        }
        assert forall|i: int| 0 <= i && match_at(hay.drop_first(), needle, i) implies match_at(
            hay,
            needle,
            i + 1,
        ) by {
            assert(hay.subrange(i + 1, i + 1 + needle.len() as int) =~= hay.drop_first().subrange(
                i,
                i + needle.len() as int,
            ));
        }
    }
}

/// Decides whether `needle` occurs in `hay` at position `i`.
fn match_here(hay: &str, needle: &str, i: usize) -> (b: bool)
    requires
        i + needle@.len() <= hay@.len(),
    ensures
        b == match_at(hay@, needle@, i as int),
{
    let hn = hay.unicode_len();
    let nn = needle.unicode_len();
    let mut k: usize = 0;
    while k < nn
        invariant
            i + nn <= hn,
            hn == hay@.len(),
            nn == needle@.len(),
            k <= nn,
            forall|l: int| 0 <= l < k ==> hay@[i + l] == needle@[l],
        decreases nn - k,
    {
        if hay.get_char(i + k) != needle.get_char(k) {
            proof {
                assert(hay@.subrange(i as int, i + nn as int)[k as int] == hay@[i + k]);
                assert(hay@.subrange(i as int, i + nn as int) != needle@);
            }
            return false;
        }
        k += 1;
    }
    proof {
        assert(hay@.subrange(i as int, i + nn as int) =~= needle@);
    }
    true
}

/// Finds the first occurrence of `needle` in `hay`.
pub fn find_sub(hay: &str, needle: &str) -> (r: Option<usize>)
    ensures
        match r {
            Option::Some(i) => i as int == first_occurrence(hay@, needle@),
            Option::None => first_occurrence(hay@, needle@) == -1,
        },
{
    proof {
        lemma_first_occurrence(hay@, needle@);
    }
    let hn = hay.unicode_len();
    let nn = needle.unicode_len();
    if hn < nn {
        return Option::None;
    }
    let ghost fo = first_occurrence(hay@, needle@);
    let limit = hn - nn;
    let mut i: usize = 0;
    while i < limit
        invariant
            nn <= hn,
            hn == hay@.len(),
            nn == needle@.len(),
            limit == hn - nn,
            i <= limit,
            fo == first_occurrence(hay@, needle@),
            forall|j: int| 0 <= j < i ==> !match_at(hay@, needle@, j),
        decreases limit - i,
    {
        if match_here(hay, needle, i) {
            proof {
                lemma_first_occurrence(hay@, needle@);
                assert(fo != -1);
                assert(!(fo < i));
                assert(!(fo > i));
            }
            return Option::Some(i);
        }
        i += 1;
    }
    if match_here(hay, needle, limit) {
        proof {
            lemma_first_occurrence(hay@, needle@);
            assert(fo != -1);
            assert(!(fo < limit));
            assert(!(fo > limit));
        }
        return Option::Some(limit);
    }
    proof {
        lemma_first_occurrence(hay@, needle@);
        if fo != -1 {
            assert(match_at(hay@, needle@, fo));
            assert(false);
        }
    }
    Option::None
}

/// A whitespace character.
pub open spec fn is_space(c: char) -> bool {
    c == ' ' || c == '\t' || c == '\r' || c == '\n'
}

/// The length of `t` with trailing whitespace removed.
pub open spec fn trimmed_end(t: Seq<char>) -> int
    decreases t.len(),
{
    if t.len() == 0 {
        0
    } else if is_space(t.last()) {
        trimmed_end(t.drop_last())
    } else {
        t.len() as int
    }
}

/// The start of the maximal non-whitespace run ending at `e`.
pub open spec fn tok_start(t: Seq<char>, e: int) -> int
    decreases e,
{
    if e <= 0 {
        0
    } else if is_space(t[e - 1]) {
        e
    } else {
        tok_start(t, e - 1)
    }
}

/// The last whitespace-delimited token of `t` (empty when `t` is all space).
pub open spec fn last_token(t: Seq<char>) -> Seq<char> {
    t.subrange(tok_start(t, trimmed_end(t)), trimmed_end(t))
}

/// `trimmed_end` stays within the sequence.
pub proof fn lemma_trimmed_end_bounds(t: Seq<char>)
    ensures
        0 <= trimmed_end(t) <= t.len(),
    decreases t.len(),
{
    if t.len() > 0 && is_space(t.last()) {
        lemma_trimmed_end_bounds(t.drop_last());
    }
}

/// `tok_start` stays within `0..=e`.
pub proof fn lemma_tok_start_bounds(t: Seq<char>, e: int)
    ensures
        0 <= tok_start(t, e) <= e || (e < 0 && tok_start(t, e) == 0),
    decreases e,
{
    if e > 0 && !is_space(t[e - 1]) {
        lemma_tok_start_bounds(t, e - 1);
    }
}

/// A sequence trims to nothing exactly when it is all whitespace.
pub proof fn lemma_trimmed_end_zero(t: Seq<char>)
    ensures
        trimmed_end(t) == 0 <==> (forall|i: int| 0 <= i < t.len() ==> is_space(#[trigger] t[i])),
    decreases t.len(),
{
    if t.len() > 0 {
        lemma_trimmed_end_zero(t.drop_last());
        if is_space(t.last()) {
            assert(forall|i: int|
                0 <= i < t.drop_last().len() ==> t.drop_last()[i] == #[trigger] t[i]);
            if trimmed_end(t) == 0 {
                assert forall|i: int| 0 <= i < t.len() implies is_space(#[trigger] t[i]) by {
                    if i < t.len() - 1 {
                        assert(is_space(t.drop_last()[i]));
                    }
                }
            }
        } else {
            assert(!is_space(t[t.len() - 1]));
        }
    }
}

/// The last whitespace-delimited token of `line`, if any.
pub fn last_token_of(line: &str) -> (r: Option<String>)
    ensures
        match r {
            Option::Some(tok) => trimmed_end(line@) > 0 && tok@ == last_token(line@)
                && tok@.len() > 0,
            Option::None => trimmed_end(line@) == 0,
        },
{
    proof {
        lemma_trimmed_end_bounds(line@);
    }
    let n = line.unicode_len();
    let mut e = n;
    proof {
        assert(line@.subrange(0, n as int) =~= line@);
    }
    loop
        invariant
            e <= n,
            n == line@.len(),
            trimmed_end(line@) == trimmed_end(line@.subrange(0, e as int)),
        ensures
            e <= n,
            n == line@.len(),
            trimmed_end(line@) == e,
            e > 0 ==> !is_space(line@[e - 1]),
        decreases e,
    {
        if e == 0 {
            proof {
                assert(line@.subrange(0, 0).len() == 0);
            }
            break;
        }
        let c = line.get_char(e - 1);
        if !(c == ' ' || c == '\t' || c == '\r' || c == '\n') {
            proof {
                assert(line@.subrange(0, e as int).last() == line@[e - 1]);
            }
            break;
        }
        proof {
            assert(line@.subrange(0, e as int).last() == line@[e - 1]);
            assert(line@.subrange(0, e as int).drop_last() =~= line@.subrange(0, e - 1));
        }
        e -= 1;
    }
    if e == 0 {
        return Option::None;
    }
    proof {
        lemma_tok_start_bounds(line@, e as int);
        assert(!is_space(line@[e - 1]));
        assert(tok_start(line@, e as int) == tok_start(line@, e - 1));
        lemma_tok_start_bounds(line@, e - 1);
    }
    let mut a = e;
    loop
        invariant
            a <= e <= n,
            n == line@.len(),
            tok_start(line@, e as int) == tok_start(line@, a as int),
        ensures
            a <= e,
            tok_start(line@, e as int) == a,
        decreases a,
    {
        if a == 0 {
            break;
        }
        let c = line.get_char(a - 1);
        if c == ' ' || c == '\t' || c == '\r' || c == '\n' {
            break;
        }
        a -= 1;
    }
    let tok = line.substring_char(a, e);
    proof {
        assert(tok@ == last_token(line@));
        assert(line@.subrange(a as int, e as int)[e - 1 - a] == line@[e - 1]);
    }
    Option::Some(tok.to_owned())
}

/// The line contains the ban token for the target date.
pub open spec fn line_matches(line: Seq<char>, d: Date) -> bool {
    first_occurrence(line, ban_token(d)) != -1
}

/// The line contains the ban token but nothing follows it: no address.
pub open spec fn line_malformed(line: Seq<char>, d: Date) -> bool {
    &&& line_matches(line, d)
    &&& trimmed_end(
        line.subrange(
            first_occurrence(line, ban_token(d)) + ban_token(d).len(),
            line.len() as int,
        ),
    ) == 0
}

/// The addresses extracted from `lines` for date `d`, in line order.
pub open spec fn extract_addrs(lines: Seq<Seq<char>>, d: Date) -> Seq<Seq<char>>
    decreases lines.len(),
{
    if lines.len() == 0 {
        Seq::empty()
    } else {
        extract_addrs(lines.drop_last(), d) + (if line_matches(lines.last(), d) && !line_malformed(
            lines.last(),
            d,
        ) {
            seq![last_token(lines.last())]
        } else {
            Seq::empty()
        })
    }
}

/// How many lines match the token but carry no address.
pub open spec fn malformed_count(lines: Seq<Seq<char>>, d: Date) -> int
    decreases lines.len(),
{
    if lines.len() == 0 {
        0
    } else {
        malformed_count(lines.drop_last(), d) + (if line_malformed(lines.last(), d) {
            1int
        } else {
            0int
        })
    }
}

/// One extracted ban entry: a blocked address on a given date.
pub struct BanRecord {
    pub date: Date,
    pub address: String,
}

/// The outcome of one extraction pass.
pub struct Extraction {
    pub records: Vec<BanRecord>,
    pub malformed: usize,
}

/// Streaming extractor: lines are fed one at a time, so an arbitrarily large
/// log never has to be held in memory whole. The state always reflects
/// exactly the extraction of the lines processed so far.
pub struct BanLogExtractor {
    pub date: Date,
    pub token: String,
    pub records: Vec<BanRecord>,
    pub malformed: usize,
    pub seen: usize,
    pub processed: Ghost<Seq<Seq<char>>>,
}

impl BanLogExtractor {
    /// The state is exactly the extraction of the processed lines.
    pub open spec fn wf(&self) -> bool {
        &&& self.date.valid()
        &&& self.token@ == ban_token(self.date)
        &&& self.records@.map_values(|b: BanRecord| b.address@) == extract_addrs(
            self.processed@,
            self.date,
        )
        &&& forall|i: int|
            0 <= i < self.records@.len() ==> (#[trigger] self.records@[i]).date == self.date
                && self.records@[i].address@.len() > 0
        &&& self.malformed as int == malformed_count(self.processed@, self.date)
        &&& self.seen as int == self.processed@.len()
        &&& self.malformed <= self.seen
    }

    /// A fresh extractor for one target date, with nothing processed.
    pub fn new(date: &Date) -> (s: BanLogExtractor)
        requires
            date.valid(),
        ensures
            s.wf(),
            s.date == *date,
            s.processed@ == Seq::<Seq<char>>::empty(),
            s.records@.len() == 0,
            s.malformed == 0,
    {
        let s = BanLogExtractor {
            date: *date,
            token: make_ban_token(date),
            records: Vec::new(),
            malformed: 0,
            seen: 0,
            processed: Ghost(Seq::empty()),
        };
        proof {
            assert(s.records@.map_values(|b: BanRecord| b.address@) =~= extract_addrs(
                s.processed@,
                s.date,
            ));
        }
        s
    }

    /// Processes one log line: a line containing the date's ban token either
    /// contributes its last token as an address or is counted as malformed.
    pub fn feed_line(&mut self, line: &str)
        requires
            old(self).wf(),
            old(self).seen < usize::MAX,
        ensures
            final(self).wf(),
            final(self).date == old(self).date,
            final(self).token == old(self).token,
            final(self).seen == old(self).seen + 1,
            final(self).processed@ == old(self).processed@.push(line@),
    {
        let ghost lseq = line@;
        let ghost before = self.processed@;
        let ghost d = self.date;
        let n = line.unicode_len();
        let tl = self.token.as_str().unicode_len();
        match find_sub(line, self.token.as_str()) {
            Option::None => {
                proof {
                    assert(!line_matches(lseq, d));
                }
            },
            Option::Some(pos) => {
                proof {
                    lemma_first_occurrence(lseq, self.token@);
                    assert(match_at(lseq, self.token@, pos as int));
                }
                let rest = line.substring_char(pos + tl, n);
                match last_token_of(rest) {
                    Option::None => {
                        proof {
                            assert(line_malformed(lseq, d));
                        }
                        self.malformed += 1;
                    },
                    Option::Some(_) => {
                        proof {
                            assert(!line_malformed(lseq, d));
                        }
                        match last_token_of(line) {
                            Option::Some(tok) => {
                                let day = self.date;
                                self.records.push(BanRecord { date: day, address: tok });
                            },
                            Option::None => {
                                proof {
                                    lemma_trimmed_end_zero(rest@);
                                    let k = choose|k: int|
                                        0 <= k < rest@.len() && !is_space(rest@[k]);
                                    lemma_trimmed_end_zero(lseq);
                                    assert(lseq[pos + tl + k] == rest@[k]);
                                    assert(false);
                                }
                            },
                        }
                    },
                }
            },
        }
        self.seen += 1;
        proof {
            self.processed@ = before.push(lseq);
            assert(before.push(lseq).drop_last() =~= before);
            assert(before.push(lseq).last() == lseq);
            assert(self.records@.map_values(|b: BanRecord| b.address@) =~= extract_addrs(
                self.processed@,
                d,
            ));
        }
    }

    /// The extraction gathered so far.
    pub fn finish(self) -> (r: Extraction)
        ensures
            r.records == self.records,
            r.malformed == self.malformed,
    {
        Extraction { records: self.records, malformed: self.malformed }
    }
}

/// Extracts the ban records of `date` from the log lines, counting
/// matching lines that carry no address instead of failing on them.
pub fn extract_bans(lines: &Vec<String>, date: &Date) -> (r: Extraction)
    requires
        date.valid(),
    ensures
        r.records@.map_values(|b: BanRecord| b.address@) == extract_addrs(
            lines@.map_values(|l: String| l@),
            *date,
        ),
        forall|i: int|
            0 <= i < r.records@.len() ==> (#[trigger] r.records@[i]).date == *date
                && r.records@[i].address@.len() > 0,
        r.malformed as int == malformed_count(lines@.map_values(|l: String| l@), *date),
{
    let ghost lv = lines@.map_values(|l: String| l@);
    let mut ex = BanLogExtractor::new(date);
    proof {
        assert(ex.processed@ =~= lv.subrange(0, 0));
    }
    let mut j: usize = 0;
    while j < lines.len()
        invariant
            lv == lines@.map_values(|l: String| l@),
            ex.wf(),
            ex.date == *date,
            j <= lines@.len(),
            ex.processed@ == lv.subrange(0, j as int),
        decreases lines@.len() - j,
    {
        proof {
            assert(lv[j as int] == lines@[j as int]@);
        }
        ex.feed_line(lines[j].as_str());
        proof {
            assert(lv.subrange(0, j as int).push(lv[j as int]) =~= lv.subrange(0, j + 1));
        }
        j += 1;
    }
    proof {
        assert(lv.subrange(0, lv.len() as int) =~= lv);
    }
    ex.finish()
}

/// Extraction is a pure function of the log and the date: any two passes
/// over the same unmodified log and date yield the same records, hence the
/// same multiset of addresses.
pub proof fn lemma_extraction_deterministic(
    lines: Seq<Seq<char>>,
    d: Date,
    r1: Seq<Seq<char>>,
    r2: Seq<Seq<char>>,
)
    requires
        r1 == extract_addrs(lines, d),
        r2 == extract_addrs(lines, d),
    ensures
        r1 == r2,
        r1.to_multiset() == r2.to_multiset(),
{
}

/// Date-window correctness: every extracted address is the last token of
/// some line that contains the target date's ban token.
pub proof fn lemma_extraction_date_window(lines: Seq<Seq<char>>, d: Date)
    ensures
        forall|k: int|
            0 <= k < extract_addrs(lines, d).len() ==> exists|i: int|
                0 <= i < lines.len() && line_matches(#[trigger] lines[i], d) && !line_malformed(
                    lines[i],
                    d,
                ) && #[trigger] extract_addrs(lines, d)[k] == last_token(lines[i]),
    decreases lines.len(),
{
    if lines.len() > 0 {
        lemma_extraction_date_window(lines.drop_last(), d);
        let prev = extract_addrs(lines.drop_last(), d);
        assert forall|k: int| 0 <= k < extract_addrs(lines, d).len() implies exists|i: int|
            0 <= i < lines.len() && line_matches(#[trigger] lines[i], d) && !line_malformed(
                lines[i],
                d,
            ) && #[trigger] extract_addrs(lines, d)[k] == last_token(lines[i]) by {
            if k < prev.len() {
                let i = choose|i: int|
                    0 <= i < lines.drop_last().len() && line_matches(
                        #[trigger] lines.drop_last()[i],
                        d,
                    ) && !line_malformed(lines.drop_last()[i], d) && prev[k] == last_token(
                        lines.drop_last()[i],
                    );
                assert(lines[i] == lines.drop_last()[i]);
                assert(extract_addrs(lines, d)[k] == prev[k]);
            } else {
                let i = lines.len() - 1;
                assert(lines[i] == lines.last());
                assert(line_matches(lines[i], d) && !line_malformed(lines[i], d));
                assert(extract_addrs(lines, d)[k] == last_token(lines[i]));
            }
        }
    }
}

/// Every matching line that carries an address contributes it: extraction
/// misses nothing inside the date window.
pub proof fn lemma_extraction_complete(lines: Seq<Seq<char>>, d: Date)
    ensures
        forall|i: int|
            0 <= i < lines.len() && line_matches(#[trigger] lines[i], d) && !line_malformed(
                lines[i],
                d,
            ) ==> extract_addrs(lines, d).contains(last_token(lines[i])),
    decreases lines.len(),
{
    if lines.len() > 0 {
        lemma_extraction_complete(lines.drop_last(), d);
        let prev = extract_addrs(lines.drop_last(), d);
        let cur = extract_addrs(lines, d);
        assert forall|i: int|
            0 <= i < lines.len() && line_matches(#[trigger] lines[i], d) && !line_malformed(
                lines[i],
                d,
            ) implies cur.contains(last_token(lines[i])) by {
            if i < lines.len() - 1 {
                assert(lines.drop_last()[i] == lines[i]);
                assert(prev.contains(last_token(lines[i])));
                let k = choose|k: int| 0 <= k < prev.len() && prev[k] == last_token(lines[i]);
                assert(cur[k] == last_token(lines[i]));
            } else {
                assert(lines[i] == lines.last());
                assert(cur[cur.len() - 1] == last_token(lines[i]));
            }
        }
    }
}

/// A log with no matching line yields no records.
pub proof fn lemma_no_match_no_output(lines: Seq<Seq<char>>, d: Date)
    requires
        forall|i: int| 0 <= i < lines.len() ==> !line_matches(#[trigger] lines[i], d),
    ensures
        extract_addrs(lines, d) == Seq::<Seq<char>>::empty(),
        malformed_count(lines, d) == 0,
    decreases lines.len(),
{
    if lines.len() > 0 {
        assert(forall|i: int|
            0 <= i < lines.drop_last().len() ==> lines.drop_last()[i] == #[trigger] lines[i]);
        lemma_no_match_no_output(lines.drop_last(), d);
        assert(!line_matches(lines.last(), d));
        assert(extract_addrs(lines, d) =~= Seq::<Seq<char>>::empty());
    }
}

} // verus!
