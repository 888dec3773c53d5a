//! The commit listing: which commits of a branch get a PDF in the listing,
//! the file names, the content hash of a PDF and the HTML index page.

use vstd::prelude::*;

use crate::text::push_char;
use sha2::Digest;

verus! {

/// The SHA-256 digest of `data`, as the `sha2` crate computes it.
pub uninterp spec fn sha256(data: Seq<u8>) -> Seq<u8>;

/// Calls `Sha256::digest` of the `sha2` crate. The contract states that the
/// result is the SHA-256 digest of exactly the given bytes, and that it is
/// 32 bytes long, as the output size of SHA-256 is.
#[verifier::external_body]
fn sha256_digest(data: &[u8]) -> (res: Vec<u8>)
    ensures
        res@ == sha256(data@),
        res@.len() == 32,
{
    sha2::Sha256::digest(data).to_vec()
}

/// The lower-case hexadecimal digit of a value below 16.
pub open spec fn hex_digit(n: u8) -> char {
    if n < 10 {
        (n + 48) as char
    } else {
        (n + 87) as char
    }
}

/// Lower-case hexadecimal text of a byte sequence, two digits per byte,
/// the high nibble first.
pub open spec fn hex_lower(bytes: Seq<u8>) -> Seq<char>
    decreases bytes.len(),
{
    if bytes.len() == 0 {
        Seq::empty()
    } else {
        hex_lower(bytes.drop_last()) + seq![hex_digit(bytes.last() / 16), hex_digit(bytes.last() % 16)]
    }
}

fn hex_digit_exec(n: u8) -> (c: char)
    requires
        n < 16,
    ensures
        c == hex_digit(n),
{
    if n < 10 {
        (n + 48) as char
    } else {
        (n + 87) as char
    }
}

/// Lower-case hexadecimal text of `bytes`.
pub fn to_hex_lower(bytes: &[u8]) -> (res: String)
    ensures
        res@ == hex_lower(bytes@),
        res@.len() == 2 * bytes@.len(),
        forall|i: int| 0 <= i < bytes@.len() ==> 16 * hex_value(res@[2 * i]) + hex_value(res@[2 * i + 1])
            == #[trigger] bytes@[i],
        forall|i: int| 0 <= i < res@.len() ==> is_lower_hex_digit(#[trigger] res@[i]),
{
    let mut res = String::new();
    let mut i: usize = 0;
    while i < bytes.len()
        invariant
            i <= bytes@.len(),
            res@ == hex_lower(bytes@.take(i as int)),
        decreases bytes@.len() - i,
    {
        let b = bytes[i];
        push_char(&mut res, hex_digit_exec(b / 16));
        push_char(&mut res, hex_digit_exec(b % 16));
        assert(bytes@.take(i + 1).drop_last() == bytes@.take(i as int));
        i = i + 1;
    }
    assert(bytes@.take(bytes@.len() as int) == bytes@);
    proof {
        lemma_hex_lower_decodes(bytes@);
        lemma_hex_lower_digits(bytes@);
    }
    res
}

/// The content hash of a PDF in the listing: the lower-case hexadecimal
/// SHA-256 digest of the file's bytes.
pub fn calculate_file_hash(contents: &[u8]) -> (res: String)
    ensures
        res@ == hex_lower(sha256(contents@)),
        res@.len() == 64,
        forall|i: int| 0 <= i < res@.len() ==> is_lower_hex_digit(#[trigger] res@[i]),
{
    let digest = sha256_digest(contents);
    let res = to_hex_lower(digest.as_slice());
    proof {
        lemma_hex_lower_len(digest@);
        lemma_hex_lower_digits(digest@);
    }
    res
}

/// `c` is one of `0`-`9`, `a`-`f`.
pub open spec fn is_lower_hex_digit(c: char) -> bool {
    ('0' <= c && c <= '9') || ('a' <= c && c <= 'f')
}

/// Hexadecimal text holds only lower-case hexadecimal digits.
pub proof fn lemma_hex_lower_digits(bytes: Seq<u8>)
    ensures
        forall|i: int| 0 <= i < hex_lower(bytes).len() ==> is_lower_hex_digit(#[trigger] hex_lower(bytes)[i]),
    decreases bytes.len(),
{
    if bytes.len() > 0 {
        let prev = bytes.drop_last();
        lemma_hex_lower_digits(prev);
        let b = bytes.last();
        let tail = seq![hex_digit(b / 16), hex_digit(b % 16)];
        assert(is_lower_hex_digit(hex_digit(b / 16)));
        assert(is_lower_hex_digit(hex_digit(b % 16)));
        assert forall|i: int| 0 <= i < hex_lower(bytes).len() implies is_lower_hex_digit(#[trigger] hex_lower(bytes)[i]) by {
            if i < hex_lower(prev).len() {
                assert(hex_lower(bytes)[i] == hex_lower(prev)[i]);
            } else {
                assert(hex_lower(bytes)[i] == tail[i - hex_lower(prev).len()]);
            }
        }
    }
}

/// The value of a lower-case hexadecimal digit.
pub open spec fn hex_value(c: char) -> int {
    if '0' <= c && c <= '9' {
        c as int - '0' as int
    } else {
        c as int - 'a' as int + 10
    }
}

/// The hexadecimal text gives back the bytes: the two digits at `2i` and
/// `2i + 1` are the high and the low nibble of byte `i`.
pub proof fn lemma_hex_lower_decodes(bytes: Seq<u8>)
    ensures
        hex_lower(bytes).len() == 2 * bytes.len(),
        forall|i: int| 0 <= i < bytes.len() ==> 16 * hex_value(hex_lower(bytes)[2 * i]) + hex_value(
            hex_lower(bytes)[2 * i + 1],
        ) == #[trigger] bytes[i],
    decreases bytes.len(),
{
    lemma_hex_lower_len(bytes);
    if bytes.len() > 0 {
        let prev = bytes.drop_last();
        lemma_hex_lower_decodes(prev);
        lemma_hex_lower_len(prev);
        let b = bytes.last();
        let hi = b / 16;
        let lo = b % 16;
        assert(hex_value(hex_digit(hi)) == hi);
        assert(hex_value(hex_digit(lo)) == lo);
        assert forall|i: int| 0 <= i < bytes.len() implies 16 * hex_value(hex_lower(bytes)[2 * i]) + hex_value(
            hex_lower(bytes)[2 * i + 1],
        ) == #[trigger] bytes[i] by {
            if i < prev.len() {
                assert(hex_lower(bytes)[2 * i] == hex_lower(prev)[2 * i]);
                assert(hex_lower(bytes)[2 * i + 1] == hex_lower(prev)[2 * i + 1]);
                assert(bytes[i] == prev[i]);
            } else {
                assert(hex_lower(bytes)[2 * i] == hex_digit(hi));
                assert(hex_lower(bytes)[2 * i + 1] == hex_digit(lo));
            }
        }
    }
}

/// Two characters per byte.
pub proof fn lemma_hex_lower_len(bytes: Seq<u8>)
    ensures
        hex_lower(bytes).len() == 2 * bytes.len(),
    decreases bytes.len(),
{
    if bytes.len() > 0 {
        lemma_hex_lower_len(bytes.drop_last());
    }
}


/// One PDF of the listing: the commit it was built from, the commit's time in
/// seconds since the Unix epoch, and the file name of the PDF.
pub struct ListingEntry {
    pub commit: String,
    pub time: i64,
    pub pdf: String,
}

impl View for ListingEntry {
    type V = (Seq<char>, i64, Seq<char>);

    open spec fn view(&self) -> (Seq<char>, i64, Seq<char>) {
        (self.commit@, self.time, self.pdf@)
    }
}

impl ListingEntry {
    /// A copy of the entry.
    pub fn duplicate(&self) -> (res: ListingEntry)
        ensures
            res == *self,
    {
        ListingEntry { commit: self.commit.clone(), time: self.time, pdf: self.pdf.clone() }
    }
}

/// The entries of `s` whose time is `t`, in the order in which they stand in `s`.
pub open spec fn with_time(s: Seq<ListingEntry>, t: i64) -> Seq<ListingEntry>
    decreases s.len(),
{
    if s.len() == 0 {
        Seq::empty()
    } else if s.last().time == t {
        with_time(s.drop_last(), t).push(s.last())
    } else {
        with_time(s.drop_last(), t)
    }
}

/// The group of a time holds exactly the entries of that time.
pub proof fn lemma_with_time_members(s: Seq<ListingEntry>, t: i64, x: ListingEntry)
    ensures
        with_time(s, t).contains(x) <==> (s.contains(x) && x.time == t),
    decreases s.len(),
{
    if s.len() > 0 {
        let prev = s.drop_last();
        let l = s.last();
        let g = with_time(s, t);
        let gp = with_time(prev, t);
        lemma_with_time_members(prev, t, x);
        if l.time == t {
            assert(g == gp.push(l));
        } else {
            assert(g == gp);
        }
        if g.contains(x) {
            let j = choose|j: int| 0 <= j < g.len() && g[j] == x;
            if l.time == t && j == gp.len() {
                assert(s[s.len() - 1] == x);
            } else {
                assert(gp[j] == x);
                assert(gp.contains(x));
                let w = choose|w: int| 0 <= w < prev.len() && prev[w] == x;
                assert(s[w] == x);
            }
        }
        if s.contains(x) && x.time == t {
            let j = choose|j: int| 0 <= j < s.len() && s[j] == x;
            if j == s.len() - 1 {
                assert(g[gp.len() as int] == x);
            } else {
                assert(prev[j] == x);
                assert(prev.contains(x));
                let w = choose|w: int| 0 <= w < gp.len() && gp[w] == x;
                assert(g[w] == x);
            }
        }
    } else {
        if s.contains(x) {
            let j = choose|j: int| 0 <= j < s.len() && s[j] == x;
        }
    }
}

/// The entries of `s` stand in non-decreasing order of time.
pub open spec fn sorted_by_time(s: Seq<ListingEntry>) -> bool {
    forall|i: int, j: int| 0 <= i < j < s.len() ==> s[i].time <= s[j].time
}

/// `r` is `s` stably sorted by time: `r` is ordered by time, and for every
/// time the entries with that time stand in `r` as they stand in `s`.
pub open spec fn is_time_order_of(s: Seq<ListingEntry>, r: Seq<ListingEntry>) -> bool {
    &&& sorted_by_time(r)
    &&& forall|t: i64| #[trigger] with_time(r, t) == with_time(s, t)
}

/// The stable sort of `s` by time (unique, see `lemma_time_order_unique`).
pub open spec fn time_order(s: Seq<ListingEntry>) -> Seq<ListingEntry> {
    choose|r: Seq<ListingEntry>| is_time_order_of(s, r)
}

proof fn lemma_with_time_add(a: Seq<ListingEntry>, b: Seq<ListingEntry>, t: i64)
    ensures
        with_time(a + b, t) == with_time(a, t) + with_time(b, t),
    decreases b.len(),
{
    if b.len() == 0 {
        assert(a + b == a);
        assert(with_time(a, t) + with_time(b, t) == with_time(a, t));
    } else {
        assert((a + b).drop_last() == a + b.drop_last());
        assert((a + b).last() == b.last());
        lemma_with_time_add(a, b.drop_last(), t);
    }
}

proof fn lemma_with_time_absent(s: Seq<ListingEntry>, t: i64)
    requires
        forall|i: int| 0 <= i < s.len() ==> s[i].time != t,
    ensures
        with_time(s, t) == Seq::<ListingEntry>::empty(),
    decreases s.len(),
{
    if s.len() > 0 {
        lemma_with_time_absent(s.drop_last(), t);
    }
}

proof fn lemma_sorted_equal_groups(r1: Seq<ListingEntry>, r2: Seq<ListingEntry>)
    requires
        sorted_by_time(r1),
        sorted_by_time(r2),
        forall|t: i64| #[trigger] with_time(r1, t) == with_time(r2, t),
    ensures
        r1 == r2,
    decreases r1.len(),
{
    if r1.len() == 0 {
        if r2.len() > 0 {
            let t = r2.last().time;
            assert(with_time(r2, t).len() > 0);
            assert(with_time(r1, t).len() == 0);
        }
        assert(r1 =~= r2);
    } else {
        if r2.len() == 0 {
            let t = r1.last().time;
            assert(with_time(r1, t).len() > 0);
            assert(with_time(r2, t).len() == 0);
        }
        let a = r1.last();
        let b = r2.last();
        if a.time < b.time {
            lemma_with_time_absent(r1, b.time);
            assert(with_time(r2, b.time).len() > 0);
        }
        if b.time < a.time {
            lemma_with_time_absent(r2, a.time);
            assert(with_time(r1, a.time).len() > 0);
        }
        let t = a.time;
        assert(with_time(r1, t) == with_time(r1.drop_last(), t).push(a));
        assert(with_time(r2, t) == with_time(r2.drop_last(), t).push(b));
        assert(with_time(r1, t).last() == a);
        assert(with_time(r2, t).last() == b);
        assert(with_time(r1, t).drop_last() == with_time(r1.drop_last(), t));
        assert(with_time(r2, t).drop_last() == with_time(r2.drop_last(), t));
        assert forall|u: i64| #[trigger] with_time(r1.drop_last(), u) == with_time(r2.drop_last(), u) by {
            if u != t {
                assert(with_time(r1, u) == with_time(r1.drop_last(), u));
                assert(with_time(r2, u) == with_time(r2.drop_last(), u));
            }
        }
        lemma_sorted_equal_groups(r1.drop_last(), r2.drop_last());
        assert(r1 =~= r2.drop_last().push(b));
        assert(r2 =~= r2.drop_last().push(b));
    }
}

/// There is only one stable sort by time: two sequences that both sort `s`
/// by time and keep, for each time, the order of `s` are equal.
pub proof fn lemma_time_order_unique(s: Seq<ListingEntry>, r1: Seq<ListingEntry>, r2: Seq<ListingEntry>)
    requires
        is_time_order_of(s, r1),
        is_time_order_of(s, r2),
    ensures
        r1 == r2,
{
    assert forall|t: i64| #[trigger] with_time(r1, t) == with_time(r2, t) by {
        assert(with_time(r1, t) == with_time(s, t));
        assert(with_time(r2, t) == with_time(s, t));
    }
    lemma_sorted_equal_groups(r1, r2);
}

/// The entries of `list`, stably sorted by their time (the sort of the
/// listing's index page: oldest first, entries of equal time in the given order).
#[verifier::rlimit(50)]
pub fn sort_by_time(list: &Vec<ListingEntry>) -> (res: Vec<ListingEntry>)
    ensures
        is_time_order_of(list@, res@),
        res@ == time_order(list@),
        res@.len() == list@.len(),
        forall|k: int| 0 <= k < list@.len() ==> res@.contains(#[trigger] list@[k]),
        forall|k: int| 0 <= k < res@.len() ==> list@.contains(#[trigger] res@[k]),
{
    let mut res: Vec<ListingEntry> = Vec::new();
    let mut i: usize = 0;
    while i < list.len()
        invariant
            i <= list@.len(),
            res@.len() == i,
            forall|k: int| 0 <= k < i ==> res@.contains(#[trigger] list@[k]),
            forall|k: int| 0 <= k < res@.len() ==> list@.take(i as int).contains(#[trigger] res@[k]),
            sorted_by_time(res@),
            forall|t: i64| #[trigger] with_time(res@, t) == with_time(list@.take(i as int), t),
        decreases list@.len() - i,
    {
        let e = list[i].duplicate();
        let mut p: usize = res.len();
        while p > 0 && res[p - 1].time > e.time
            invariant
                p <= res@.len(),
                sorted_by_time(res@),
                forall|k: int| p <= k < res@.len() ==> res@[k].time > e.time,
            decreases p,
        {
            p = p - 1;
        }
        let ghost old_res = res@;
        res.insert(p, e);
        proof {
            let front = old_res.take(p as int);
            let back = old_res.skip(p as int);
            assert(old_res =~= front + back);
            assert(res@ =~= front + seq![e] + back);
            assert forall|k: int| 0 <= k < front.len() implies front[k].time <= e.time by {
                if p > 0 {
                    assert(old_res[k].time <= old_res[p - 1].time);
                }
            }
            assert forall|t: i64| #[trigger] with_time(res@, t) == with_time(list@.take(i + 1), t) by {
                let prefix = list@.take(i + 1);
                assert(prefix.drop_last() =~= list@.take(i as int));
                assert(prefix.last() == e);
                lemma_with_time_add(front, back, t);
                lemma_with_time_add(front + seq![e], back, t);
                lemma_with_time_add(front, seq![e], t);
                assert(seq![e].drop_last() =~= Seq::<ListingEntry>::empty());
                assert(seq![e].last() == e);
                assert(with_time(Seq::<ListingEntry>::empty(), t) == Seq::<ListingEntry>::empty());
                if t == e.time {
                    lemma_with_time_absent(back, t);
                    assert(with_time(seq![e], t) =~= seq![e]);
                } else {
                    assert(with_time(seq![e], t) =~= Seq::<ListingEntry>::empty());
                }
            }
            assert(res@[p as int] == e);
            assert(e == list@[i as int]);
            assert forall|k: int| 0 <= k < i + 1 implies res@.contains(#[trigger] list@[k]) by {
                if k == i {
                    assert(res@[p as int] == list@[k]);
                } else {
                    assert(old_res.contains(list@[k]));
                    let j = choose|j: int| 0 <= j < old_res.len() && old_res[j] == list@[k];
                    if j < p {
                        assert(res@[j] == list@[k]);
                    } else {
                        assert(res@[j + 1] == list@[k]);
                    }
                }
            }
            assert forall|k: int| 0 <= k < res@.len() implies list@.take(i + 1).contains(#[trigger] res@[k]) by {
                let pre = list@.take(i + 1);
                if k == p {
                    assert(pre[i as int] == res@[k]);
                } else {
                    let j = if k < p { k } else { k - 1 };
                    assert(res@[k] == old_res[j]);
                    assert(list@.take(i as int).contains(old_res[j]));
                    let w = choose|w: int| 0 <= w < i && list@.take(i as int)[w] == old_res[j];
                    assert(pre[w] == res@[k]);
                }
            }
            assert forall|a: int, b: int| 0 <= a < b < res@.len() implies res@[a].time <= res@[b].time by {
                if a < p && b > p {
                    assert(res@[a] == old_res[a]);
                    assert(res@[b] == old_res[b - 1]);
                } else if a < p && b == p {
                    assert(res@[a] == old_res[a]);
                } else if a == p {
                    assert(res@[b] == old_res[b - 1]);
                } else if b < p {
                } else {
                    assert(res@[a] == old_res[a - 1]);
                    assert(res@[b] == old_res[b - 1]);
                }
            }
        }
        i = i + 1;
    }
    assert(list@.take(list@.len() as int) =~= list@);
    proof {
        assert(is_time_order_of(list@, res@));
        assert(exists|r: Seq<ListingEntry>| is_time_order_of(list@, r));
        lemma_time_order_unique(list@, res@, time_order(list@));
    }
    res
}

/// The text that chrono's `NaiveDateTime::from_timestamp_opt(secs, 0)`,
/// formatted with the pattern `fmt`, gives; `None` where chrono has no date
/// for `secs`.
pub uninterp spec fn chrono_utc_text(secs: i64, fmt: Seq<char>) -> Option<Seq<char>>;

/// Calls chrono's `NaiveDateTime::from_timestamp_opt(secs, 0)` and formats the
/// date with `fmt`. The contract names the outcome `chrono_utc_text(secs, fmt)`
/// and states, as chrono's date range (years -262143 to 262142) gives, that a
/// date exists for every timestamp within about 250,000 years of the epoch and
/// none for one more than about 266,000 years away. The exact text for a timestamp is
/// not stated here: it is chrono's calendar arithmetic.
#[verifier::external_body]
#[allow(deprecated)]
fn format_utc_timestamp(secs: i64, fmt: &str) -> (res: Option<String>)
    requires
        fmt@ == "%Y-%m-%d %H:%M:%S"@,
    ensures
        res matches Some(text) ==> chrono_utc_text(secs, fmt@) == Some(text@),
        res is None ==> chrono_utc_text(secs, fmt@) is None,
        -8_000_000_000_000 <= secs <= 8_000_000_000_000 ==> res is Some,
        secs < -8_400_000_000_000 || secs > 8_400_000_000_000 ==> res is None,
{
    match chrono::NaiveDateTime::from_timestamp_opt(secs, 0) {
        Some(date_time) => Some(date_time.format(fmt).to_string()),
        None => None,
    }
}

/// The date shown for a commit time: UTC in the form `YYYY-MM-DD HH:MM:SS`,
/// or `Unknown date` where the time has no calendar date.
pub open spec fn commit_date_text(time: i64) -> Seq<char> {
    match chrono_utc_text(time, "%Y-%m-%d %H:%M:%S"@) {
        Some(text) => text,
        None => "Unknown date"@,
    }
}

/// The date shown for a commit time on the index page.
pub fn commit_date(time: i64) -> (res: String)
    ensures
        res@ == commit_date_text(time),
        time < -8_400_000_000_000 || time > 8_400_000_000_000 ==> res@ == "Unknown date"@,
        chrono_utc_text(time, "%Y-%m-%d %H:%M:%S"@) matches Some(t) ==> res@ == t,
        chrono_utc_text(time, "%Y-%m-%d %H:%M:%S"@) is None ==> res@ == "Unknown date"@,
{
    let fmt = "%Y-%m-%d %H:%M:%S";
    match format_utc_timestamp(time, fmt) {
        Some(text) => text,
        None => "Unknown date".to_owned(),
    }
}

/// The list item of one entry: a link to the PDF showing the commit id, and a
/// link to the commit on the repository's web page showing its date.
pub open spec fn index_item(e: ListingEntry, repo_url: Seq<char>, pdf_dir: Seq<char>) -> Seq<char> {
    "<li><a href='"@ + pdf_dir + "/"@ + e.pdf@ + "'>"@ + e.commit@ + "</a> - <a href='"@
        + repo_url + "/commit/"@ + e.commit@ + "'>"@ + commit_date_text(e.time) + "</a></li>"@
}

/// The list items of all entries, in the order given.
pub open spec fn index_items(s: Seq<ListingEntry>, repo_url: Seq<char>, pdf_dir: Seq<char>) -> Seq<char>
    decreases s.len(),
{
    if s.len() == 0 {
        Seq::empty()
    } else {
        index_items(s.drop_last(), repo_url, pdf_dir) + index_item(s.last(), repo_url, pdf_dir)
    }
}

/// The index lists every entry once, in order: the items of a sequence with
/// one more entry are the items of the sequence followed by that entry's item.
pub proof fn lemma_index_items_push(s: Seq<ListingEntry>, e: ListingEntry, repo_url: Seq<char>, pdf_dir: Seq<char>)
    ensures
        index_items(s.push(e), repo_url, pdf_dir) == index_items(s, repo_url, pdf_dir) + index_item(
            e,
            repo_url,
            pdf_dir,
        ),
        index_items(Seq::empty(), repo_url, pdf_dir) == Seq::<char>::empty(),
{
    assert(s.push(e).drop_last() =~= s);
}

/// The items of two sequences one after the other are the items of their concatenation.
pub proof fn lemma_index_items_concat(a: Seq<ListingEntry>, b: Seq<ListingEntry>, repo_url: Seq<char>, pdf_dir: Seq<char>)
    ensures
        index_items(a + b, repo_url, pdf_dir) == index_items(a, repo_url, pdf_dir) + index_items(b, repo_url, pdf_dir),
    decreases b.len(),
{
    if b.len() == 0 {
        assert(a + b =~= a);
        assert(index_items(a, repo_url, pdf_dir) + index_items(b, repo_url, pdf_dir) =~= index_items(a, repo_url, pdf_dir));
    } else {
        assert((a + b).drop_last() =~= a + b.drop_last());
        assert((a + b).last() == b.last());
        lemma_index_items_concat(a, b.drop_last(), repo_url, pdf_dir);
    }
}

/// The whole index page for entries already in the order of the page.
pub open spec fn index_page(s: Seq<ListingEntry>, repo_url: Seq<char>, pdf_dir: Seq<char>) -> Seq<char> {
    "<html><head><title>Commit PDFs</title></head><body>"@ + "<h1>Commit PDFs</h1><ul>"@
        + index_items(s, repo_url, pdf_dir) + "</ul></body></html>"@
}

/// The list item of one entry.
pub fn index_item_text(e: &ListingEntry, github_repo_url: &str, pdf_output_dir: &str) -> (res: String)
    ensures
        res@ == index_item(*e, github_repo_url@, pdf_output_dir@),
        res@ == "<li><a href='"@ + pdf_output_dir@ + "/"@ + e.pdf@ + "'>"@ + e.commit@
            + "</a> - <a href='"@ + github_repo_url@ + "/commit/"@ + e.commit@ + "'>"@
            + commit_date_text(e.time) + "</a></li>"@,
{
    let mut res = "<li><a href='".to_owned();
    res.append(pdf_output_dir);
    res.append("/");
    res.append(e.pdf.as_str());
    res.append("'>");
    res.append(e.commit.as_str());
    res.append("</a> - <a href='");
    res.append(github_repo_url);
    res.append("/commit/");
    res.append(e.commit.as_str());
    res.append("'>");
    let date = commit_date(e.time);
    res.append(date.as_str());
    res.append("</a></li>");
    res
}

/// The HTML index page of the listing: the entries sorted by commit time,
/// oldest first (entries of equal time in the order given), one list item each.
pub fn generate_html_index(commit_list: &Vec<ListingEntry>, github_repo_url: &str, pdf_output_dir: &str) -> (res: String)
    ensures
        res@ == index_page(time_order(commit_list@), github_repo_url@, pdf_output_dir@),
        is_time_order_of(commit_list@, time_order(commit_list@)),
        res@ == "<html><head><title>Commit PDFs</title></head><body>"@ + "<h1>Commit PDFs</h1><ul>"@
            + index_items(time_order(commit_list@), github_repo_url@, pdf_output_dir@)
            + "</ul></body></html>"@,
        time_order(commit_list@).len() == commit_list@.len(),
{
    let sorted = sort_by_time(commit_list);
    let mut items = String::new();
    let mut i: usize = 0;
    while i < sorted.len()
        invariant
            i <= sorted@.len(),
            items@ == index_items(sorted@.take(i as int), github_repo_url@, pdf_output_dir@),
        decreases sorted@.len() - i,
    {
        let item = index_item_text(&sorted[i], github_repo_url, pdf_output_dir);
        items.append(item.as_str());
        assert(sorted@.take(i + 1).drop_last() =~= sorted@.take(i as int));
        i = i + 1;
    }
    assert(sorted@.take(sorted@.len() as int) =~= sorted@);
    let mut res = "<html><head><title>Commit PDFs</title></head><body>".to_owned();
    res.append("<h1>Commit PDFs</h1><ul>");
    res.append(items.as_str());
    res.append("</ul></body></html>");
    res
}

/// The file name of the PDF built from a commit: the commit id and `.pdf`.
pub open spec fn pdf_name(commit: Seq<char>) -> Seq<char> {
    commit + ".pdf"@
}

/// The file name of the PDF built from the commit `commit_id`.
pub fn pdf_file_name(commit_id: &str) -> (res: String)
    ensures
        res@ == pdf_name(commit_id@),
        res@ == commit_id@ + ".pdf"@,
{
    let mut res = commit_id.to_owned();
    res.append(".pdf");
    res
}

/// What the listing knows while the commits of the branch are walked, oldest first.
pub struct ListingModel {
    /// The commit at which the listing starts; empty for the first commit of the branch.
    pub start: Seq<char>,
    /// Whether the start commit has been reached.
    pub found_start: bool,
    /// The content hash of the PDF built last.
    pub last_pdf_hash: Option<Seq<char>>,
    /// The listed PDFs so far: commit id, commit time, PDF file name.
    pub entries: Seq<(Seq<char>, i64, Seq<char>)>,
}

/// The model before the first commit.
pub open spec fn initial_model(start: Seq<char>) -> ListingModel {
    ListingModel { start, found_start: start.len() == 0, last_pdf_hash: None, entries: Seq::empty() }
}

/// Whether a PDF is built for the commit `id` that the walk meets now.
pub open spec fn builds_commit(m: ListingModel, id: Seq<char>) -> bool {
    m.found_start || id == m.start
}

/// The model after the walk meets the commit `id`.
pub open spec fn after_commit(m: ListingModel, id: Seq<char>) -> ListingModel {
    ListingModel { found_start: builds_commit(m, id), ..m }
}

/// Whether the PDF just built, whose content hash is `hash`, is listed: it is
/// when its content differs from the PDF built before it.
pub open spec fn keeps_pdf(m: ListingModel, hash: Seq<char>) -> bool {
    m.last_pdf_hash != Some(hash)
}

/// The model after the PDF of commit `id` (time `time`) was built with content hash `hash`.
pub open spec fn after_pdf(m: ListingModel, id: Seq<char>, time: i64, hash: Seq<char>) -> ListingModel {
    if keeps_pdf(m, hash) {
        ListingModel {
            last_pdf_hash: Some(hash),
            entries: m.entries.push((id, time, pdf_name(id))),
            ..m
        }
    } else {
        m
    }
}

/// A built PDF is listed exactly when its content hash differs from the hash
/// of the PDF built before it (no PDF before counts as different): then one
/// entry, for this commit and its PDF file, is added and its hash becomes the
/// last one; otherwise the model stays as it was.
pub proof fn lemma_pdf_listed_iff_changed(m: ListingModel, id: Seq<char>, time: i64, hash: Seq<char>)
    ensures
        keeps_pdf(m, hash) <==> !(m.last_pdf_hash matches Some(h) && h == hash),
        !(m.last_pdf_hash matches Some(h) && h == hash) ==> after_pdf(m, id, time, hash).entries
            == m.entries.push((id, time, id + ".pdf"@)) && after_pdf(m, id, time, hash).last_pdf_hash
            == Some(hash),
        (m.last_pdf_hash matches Some(h) && h == hash) ==> after_pdf(m, id, time, hash) == m,
        after_pdf(m, id, time, hash).start == m.start,
        after_pdf(m, id, time, hash).found_start == m.found_start,
{
}

/// A commit is built exactly when the start commit was met before or is this
/// commit; meeting a commit changes nothing but that.
pub proof fn lemma_commit_built_from_start_on(m: ListingModel, id: Seq<char>)
    ensures
        builds_commit(m, id) <==> (m.found_start || id == m.start),
        after_commit(m, id).found_start == (m.found_start || id == m.start),
        after_commit(m, id).start == m.start,
        after_commit(m, id).last_pdf_hash == m.last_pdf_hash,
        after_commit(m, id).entries == m.entries,
{
}

/// What to do with a commit that the walk meets.
pub enum CommitAction {
    /// The commit lies before the start commit: nothing is built.
    Skip,
    /// Check the commit out and build its PDF.
    Build,
}

/// What to do with a PDF that was just built.
pub enum PdfAction {
    /// The PDF is listed.
    Keep,
    /// The PDF has the content of the one built before it: remove it.
    Discard,
}

/// The state of a listing run.
pub struct ListingState {
    pub start_commit: String,
    pub found_start: bool,
    pub last_pdf_hash: Option<String>,
    pub entries: Vec<ListingEntry>,
}

impl View for ListingState {
    type V = ListingModel;

    open spec fn view(&self) -> ListingModel {
        ListingModel {
            start: self.start_commit@,
            found_start: self.found_start,
            last_pdf_hash: match self.last_pdf_hash {
                Some(h) => Some(h@),
                None => None,
            },
            entries: self.entries@.map_values(|e: ListingEntry| e@),
        }
    }
}

impl ListingState {
    /// A run that starts at the commit `start_commit`, or at the first commit
    /// of the branch where `start_commit` is empty.
    pub fn new(start_commit: String) -> (res: ListingState)
        ensures
            res@ == initial_model(start_commit@),
            res.start_commit == start_commit,
            res.found_start == (start_commit@.len() == 0),
            res.last_pdf_hash is None,
            res.entries@.len() == 0,
    {
        let found_start = start_commit.as_str().is_empty();
        let res = ListingState { start_commit, found_start, last_pdf_hash: None, entries: Vec::new() };
        assert(res@.entries =~= Seq::<(Seq<char>, i64, Seq<char>)>::empty());
        res
    }

    /// The walk meets the commit `commit_id`: build it from the start commit on.
    pub fn on_commit(&mut self, commit_id: &str) -> (res: CommitAction)
        ensures
            final(self)@ == after_commit(old(self)@, commit_id@),
            res is Build <==> builds_commit(old(self)@, commit_id@),
            res is Build <==> (old(self).found_start || commit_id@ == old(self).start_commit@),
            final(self).found_start == (res is Build),
            final(self).start_commit == old(self).start_commit,
            final(self).last_pdf_hash == old(self).last_pdf_hash,
            final(self).entries@ == old(self).entries@,
    {
        if !self.found_start {
            let id = commit_id.to_owned();
            if id == self.start_commit {
                self.found_start = true;
            }
        }
        if self.found_start {
            CommitAction::Build
        } else {
            CommitAction::Skip
        }
    }

    /// The PDF of commit `commit_id` (time `time`) was built; its content hash
    /// is `pdf_hash`. It is listed unless the PDF built before it has the same hash.
    pub fn on_pdf_built(&mut self, commit_id: &str, time: i64, pdf_hash: String) -> (res: PdfAction)
        ensures
            final(self)@ == after_pdf(old(self)@, commit_id@, time, pdf_hash@),
            res is Keep <==> keeps_pdf(old(self)@, pdf_hash@),
            res is Keep <==> !(old(self).last_pdf_hash matches Some(h) && h@ == pdf_hash@),
            res is Keep ==> final(self).entries@.len() == old(self).entries@.len() + 1
                && final(self).entries@.drop_last() == old(self).entries@
                && final(self).entries@.last().commit@ == commit_id@
                && final(self).entries@.last().time == time
                && final(self).entries@.last().pdf@ == commit_id@ + ".pdf"@
                && final(self).last_pdf_hash == Some(pdf_hash),
            res is Discard ==> final(self).entries@ == old(self).entries@
                && final(self).last_pdf_hash == old(self).last_pdf_hash,
            final(self).start_commit == old(self).start_commit,
            final(self).found_start == old(self).found_start,
    {
        let unchanged = match &self.last_pdf_hash {
            Some(last) => *last == pdf_hash,
            None => false,
        };
        if unchanged {
            return PdfAction::Discard;
        }
        let ghost old_entries = self.entries@;
        let entry = ListingEntry { commit: commit_id.to_owned(), time, pdf: pdf_file_name(commit_id) };
        self.entries.push(entry);
        self.last_pdf_hash = Some(pdf_hash);
        assert(self.entries@.drop_last() =~= old_entries);
        assert(self.entries@.map_values(|e: ListingEntry| e@) =~= old_entries.map_values(
            |e: ListingEntry| e@,
        ).push((commit_id@, time, pdf_name(commit_id@))));
        PdfAction::Keep
    }
}

/// The commits of a walk (each: id, time, content hash of the PDF built from
/// it) from the first one whose id is `start` on; all of them when `start` is
/// empty, none when no commit has that id.
pub open spec fn from_start(start: Seq<char>, walk: Seq<(Seq<char>, i64, Seq<char>)>) -> Seq<
    (Seq<char>, i64, Seq<char>),
>
    decreases walk.len(),
{
    if walk.len() == 0 {
        Seq::empty()
    } else {
        let before = from_start(start, walk.drop_last());
        if start.len() == 0 || before.len() > 0 || walk.last().0 == start {
            before.push(walk.last())
        } else {
            before
        }
    }
}

/// The built commits whose PDF differs in content from the PDF of the commit
/// built just before them; the first built commit always counts.
pub open spec fn changed_pdfs(built: Seq<(Seq<char>, i64, Seq<char>)>) -> Seq<(Seq<char>, i64, Seq<char>)>
    decreases built.len(),
{
    if built.len() == 0 {
        Seq::empty()
    } else if built.len() > 1 && built.last().2 == built[built.len() - 2].2 {
        changed_pdfs(built.drop_last())
    } else {
        changed_pdfs(built.drop_last()).push(built.last())
    }
}

/// The listing that a walk should give: one entry (commit id, time, PDF file
/// name) for each commit from the start commit on whose PDF changed.
pub open spec fn listing_of(start: Seq<char>, walk: Seq<(Seq<char>, i64, Seq<char>)>) -> Seq<
    (Seq<char>, i64, Seq<char>),
> {
    changed_pdfs(from_start(start, walk)).map_values(
        |w: (Seq<char>, i64, Seq<char>)| (w.0, w.1, pdf_name(w.0)),
    )
}

/// The model after a run that meets each commit of `walk` in turn, builds the
/// PDF of each commit that `on_commit` asks for and reports it to `on_pdf_built`.
pub open spec fn walk_model(start: Seq<char>, walk: Seq<(Seq<char>, i64, Seq<char>)>) -> ListingModel
    decreases walk.len(),
{
    if walk.len() == 0 {
        initial_model(start)
    } else {
        let w = walk.last();
        let m = after_commit(walk_model(start, walk.drop_last()), w.0);
        if m.found_start {
            after_pdf(m, w.0, w.1, w.2)
        } else {
            m
        }
    }
}

/// A listing run lists exactly the commits from the start commit on (from the
/// first commit of the branch when no start commit is given) whose PDF differs
/// from the PDF of the commit built just before them.
pub proof fn lemma_run_lists_changed_pdfs(start: Seq<char>, walk: Seq<(Seq<char>, i64, Seq<char>)>)
    ensures
        walk_model(start, walk).entries == listing_of(start, walk),
        walk_model(start, walk).start == start,
        walk_model(start, walk).found_start == (start.len() == 0 || from_start(start, walk).len() > 0),
        walk_model(start, walk).last_pdf_hash == (if from_start(start, walk).len() > 0 {
            Some(from_start(start, walk).last().2)
        } else {
            None
        }),
    decreases walk.len(),
{
    if walk.len() == 0 {
        assert(listing_of(start, walk) =~= Seq::<(Seq<char>, i64, Seq<char>)>::empty());
    } else {
        let prev = walk.drop_last();
        let w = walk.last();
        lemma_run_lists_changed_pdfs(start, prev);
        let b0 = from_start(start, prev);
        let b = from_start(start, walk);
        let f = |w: (Seq<char>, i64, Seq<char>)| (w.0, w.1, pdf_name(w.0));
        if start.len() == 0 || b0.len() > 0 || w.0 == start {
            assert(b == b0.push(w));
            assert(b.drop_last() =~= b0);
            if b0.len() > 0 && b0.last().2 == w.2 {
                assert(b[b.len() - 2] == b0.last());
                assert(changed_pdfs(b) == changed_pdfs(b0));
            } else {
                assert(changed_pdfs(b) == changed_pdfs(b0).push(w));
                assert(changed_pdfs(b).map_values(f) =~= changed_pdfs(b0).map_values(f).push(f(w)));
            }
        } else {
            assert(b == b0);
        }
    }
}

/// With no start commit given, every commit of the walk is built.
pub proof fn lemma_from_start_all(walk: Seq<(Seq<char>, i64, Seq<char>)>)
    ensures
        from_start(Seq::empty(), walk) == walk,
    decreases walk.len(),
{
    if walk.len() > 0 {
        lemma_from_start_all(walk.drop_last());
        assert(walk.drop_last().push(walk.last()) =~= walk);
    } else {
        assert(walk =~= Seq::<(Seq<char>, i64, Seq<char>)>::empty());
    }
}

/// When no commit of the walk is the start commit, nothing is built.
pub proof fn lemma_from_start_absent(start: Seq<char>, walk: Seq<(Seq<char>, i64, Seq<char>)>)
    requires
        start.len() > 0,
        forall|j: int| 0 <= j < walk.len() ==> walk[j].0 != start,
    ensures
        from_start(start, walk).len() == 0,
    decreases walk.len(),
{
    if walk.len() > 0 {
        lemma_from_start_absent(start, walk.drop_last());
    }
}

/// The built commits are those from the first commit whose id is the start
/// commit to the end of the walk.
pub proof fn lemma_from_start_at(start: Seq<char>, walk: Seq<(Seq<char>, i64, Seq<char>)>, k: int)
    requires
        start.len() > 0,
        0 <= k < walk.len(),
        walk[k].0 == start,
        forall|j: int| 0 <= j < k ==> walk[j].0 != start,
    ensures
        from_start(start, walk) == walk.skip(k),
    decreases walk.len(),
{
    let prev = walk.drop_last();
    if k < walk.len() - 1 {
        lemma_from_start_at(start, prev, k);
        assert(prev.skip(k).push(walk.last()) =~= walk.skip(k));
    } else {
        lemma_from_start_absent(start, prev);
        assert(from_start(start, prev) =~= Seq::<(Seq<char>, i64, Seq<char>)>::empty());
        assert(walk.skip(k) =~= seq![walk.last()]);
    }
}

/// Every built commit whose PDF differs from the one built just before it (and
/// the first built commit) is listed.
pub proof fn lemma_changed_pdf_listed(built: Seq<(Seq<char>, i64, Seq<char>)>)
    ensures
        forall|i: int| 0 <= i < built.len() && (i == 0 || built[i].2 != built[i - 1].2) ==> changed_pdfs(
            built,
        ).contains(#[trigger] built[i]),
    decreases built.len(),
{
    if built.len() > 0 {
        let prev = built.drop_last();
        lemma_changed_pdf_listed(prev);
        assert forall|i: int| 0 <= i < built.len() && (i == 0 || built[i].2 != built[i - 1].2) implies changed_pdfs(
            built,
        ).contains(#[trigger] built[i]) by {
            if i < prev.len() {
                assert(built[i] == prev[i]);
                if i > 0 {
                    assert(built[i - 1] == prev[i - 1]);
                }
                assert(changed_pdfs(prev).contains(prev[i]));
                let c = changed_pdfs(prev);
                let w = choose|w: int| 0 <= w < c.len() && c[w] == prev[i];
                if changed_pdfs(built) == c.push(built.last()) {
                    assert(changed_pdfs(built)[w] == prev[i]);
                }
            } else {
                let c = changed_pdfs(prev);
                assert(changed_pdfs(built) == c.push(built.last()));
                assert(changed_pdfs(built)[c.len() as int] == built[i]);
            }
        }
    }
}

/// No two neighbouring entries of a listing come from PDFs of equal content.
pub proof fn lemma_listed_neighbours_differ(built: Seq<(Seq<char>, i64, Seq<char>)>)
    ensures
        forall|i: int| 0 <= i < changed_pdfs(built).len() - 1 ==> changed_pdfs(built)[i].2 != #[trigger] changed_pdfs(built)[i + 1].2,
        built.len() > 0 ==> changed_pdfs(built).len() > 0 && changed_pdfs(built).last().2 == built.last().2,
    decreases built.len(),
{
    if built.len() > 0 {
        let prev = built.drop_last();
        lemma_listed_neighbours_differ(prev);
        if built.len() > 1 {
            assert(built[built.len() - 2] == prev.last());
        }
    }
}

/// The Nix expression whose value is the listing's configuration: the
/// defaults (branch `master`, the listing under `build_dir`, no start commit,
/// no upload), overridden by the `genListing` set of the project's `htldoc.nix`.
pub open spec fn listing_config_expr(build_dir: Seq<char>) -> Seq<char> {
    "\n        let \n            config = (import ./htldoc.nix { });\n            default = {\n                branch = \"master\";\n                pdf_output_dir = \""@
        + build_dir + "/listing\";\n                html_index_file = \""@ + build_dir
        + "/listing/index.html\";\n                githubRepoUrl = \"\";\n                startingCommit = \"\";\n                rsyncDestinationArg = \"\";\n                uploadCommand = \"\";\n            };\n        in default // (if builtins.hasAttr \"genListing\" config then config.genListing else { })\n    "@
}

/// The Nix expression whose value is the listing's configuration.
pub fn listing_config_expr_text(build_dir: &str) -> (res: String)
    ensures
        res@ == listing_config_expr(build_dir@),
        res@ == "\n        let \n            config = (import ./htldoc.nix { });\n            default = {\n                branch = \"master\";\n                pdf_output_dir = \""@
            + build_dir@ + "/listing\";\n                html_index_file = \""@ + build_dir@
            + "/listing/index.html\";\n                githubRepoUrl = \"\";\n                startingCommit = \"\";\n                rsyncDestinationArg = \"\";\n                uploadCommand = \"\";\n            };\n        in default // (if builtins.hasAttr \"genListing\" config then config.genListing else { })\n    "@,
{
    let mut res = "\n        let \n            config = (import ./htldoc.nix { });\n            default = {\n                branch = \"master\";\n                pdf_output_dir = \"".to_owned();
    res.append(build_dir);
    res.append("/listing\";\n                html_index_file = \"");
    res.append(build_dir);
    res.append(
        "/listing/index.html\";\n                githubRepoUrl = \"\";\n                startingCommit = \"\";\n                rsyncDestinationArg = \"\";\n                uploadCommand = \"\";\n            };\n        in default // (if builtins.hasAttr \"genListing\" config then config.genListing else { })\n    ",
    );
    res
}

/// The configuration of a listing run, as the `genListing` set of
/// `htldoc.nix` gives it.
pub struct Config {
    /// The branch whose commits are listed.
    pub branch_name: String,
    /// The earliest commit to list; empty for the first commit of the branch.
    pub start_commit: String,
    /// The directory that receives the PDFs and the index.
    pub pdf_output_dir: String,
    /// The path of the index page.
    pub html_index_file: String,
    /// The web address of the repository, for links to the commits.
    pub github_repo_url: String,
    /// Where rsync copies the listing to; empty for no copy.
    pub rsync_destination_arg: String,
    /// A bash command run after the listing was made; empty for none.
    pub upload_command: String,
}

/// A way in which the finished listing is uploaded.
pub enum UploadStep {
    /// Copy the contents of `source` recursively with rsync to `destination`.
    Rsync { source: String, destination: String },
    /// Run this command with bash, `LISTING_OUT_DIR` set to the listing's directory.
    Command(String),
}

/// The uploads of a finished listing: an rsync copy of the listing directory
/// when a destination is set, then the upload command when one is set.
pub fn upload_steps(config: &Config) -> (res: Vec<UploadStep>)
    ensures
        res@.len() == (if config.rsync_destination_arg@.len() > 0 { 1int } else { 0int }) + (
        if config.upload_command@.len() > 0 {
            1int
        } else {
            0int
        }),
        config.rsync_destination_arg@.len() > 0 ==> (res@[0] matches UploadStep::Rsync {
            source,
            destination,
        } && source@ == config.pdf_output_dir@ + "/"@ && destination@
            == config.rsync_destination_arg@),
        config.upload_command@.len() > 0 ==> (res@.last() matches UploadStep::Command(c) && c@
            == config.upload_command@),
{
    let mut res: Vec<UploadStep> = Vec::new();
    if !config.rsync_destination_arg.as_str().is_empty() {
        let mut source = config.pdf_output_dir.clone();
        source.append("/");
        res.push(UploadStep::Rsync { source, destination: config.rsync_destination_arg.clone() });
    }
    if !config.upload_command.as_str().is_empty() {
        res.push(UploadStep::Command(config.upload_command.clone()));
    }
    res
}

/// The option that asks `htldoc build` for its full output.
pub fn build_verbose_flag(verbose: bool) -> (res: String)
    ensures
        res@ == (if verbose { "-v"@ } else { ""@ }),
{
    if verbose {
        "-v".to_owned()
    } else {
        "".to_owned()
    }
}

} // verus!
