//! The log of recently opened presentations: one entry per file, with the
//! time it was last opened.
use vstd::prelude::*;

use crate::display::{debug_str, str_debug};
use crate::path::{join, joined};
use crate::text::append_str;

verus! {

/// Whether `chrono::DateTime::<Utc>::from_timestamp(secs, nanos)` gives a
/// time: the seconds must fall on a day from 1 January of year -262143 to 31
/// December of year 262142, and the nanoseconds must be under a second, or
/// under two seconds in the last second of a minute (a leap second).
pub open spec fn chrono_accepts(secs: i64, nanos: u32) -> bool {
    &&& -8_334_601_228_800 <= secs <= 8_210_266_876_799
    &&& (nanos < 1_000_000_000 || (nanos < 2_000_000_000 && secs % 60 == 59))
}

/// The text that `format!("{:?}", t)` gives for the `chrono::DateTime<Utc>`
/// `t` made by `DateTime::from_timestamp(secs, nanos)`.
pub uninterp spec fn chrono_debug(secs: i64, nanos: u32) -> Seq<char>;

/// Whether chrono can represent the given time: calls
/// `chrono::DateTime::from_timestamp` and reports whether it returned `Some`,
/// which by chrono's source (the day range of `NaiveDate` and the rule of
/// `NaiveTime::from_num_seconds_from_midnight_opt`) is `chrono_accepts`.
#[verifier::external_body]
fn chrono_timestamp_ok(secs: i64, nanos: u32) -> (r: bool)
    ensures
        r == chrono_accepts(secs, nanos),
{
    chrono::DateTime::from_timestamp(secs, nanos).is_some()
}

/// The current time: calls `chrono::Utc::now` and reads the result back with
/// `DateTime::timestamp` and `DateTime::timestamp_subsec_nanos`. chrono builds
/// that value with `DateTime::from_timestamp(..).unwrap()`, and these two
/// readers give back the arguments of that call, so the contract claims that
/// chrono accepts the pair. What the time is, is left unsaid. (chrono panics
/// there when the system clock is set before 1970.)
#[verifier::external_body]
fn chrono_now() -> (r: (i64, u32))
    ensures
        chrono_accepts(r.0, r.1),
{
    let now = chrono::Utc::now();
    (now.timestamp(), now.timestamp_subsec_nanos())
}

/// The `Debug` text of the time: calls `chrono::DateTime::from_timestamp`,
/// which gives `Some` under the `requires`, and formats the result with
/// `format!("{:?}", ..)`. The contract claims that the text is the value of
/// `chrono_debug` on the two arguments.
#[verifier::external_body]
fn chrono_debug_text(secs: i64, nanos: u32) -> (r: String)
    requires
        chrono_accepts(secs, nanos),
    ensures
        r@ == chrono_debug(secs, nanos),
{
    format!("{:?}", chrono::DateTime::from_timestamp(secs, nanos).unwrap())
}

/// A moment in UTC, as seconds since 1970-01-01 and nanoseconds into the
/// second (1_000_000_000 and more inside a leap second), always one that
/// chrono can represent.
#[derive(Debug, Clone, Copy, PartialEq, Eq, Structural)]
pub struct Timestamp {
    secs: i64,
    nanos: u32,
}

impl View for Timestamp {
    type V = (i64, u32);

    closed spec fn view(&self) -> (i64, u32) {
        (self.secs, self.nanos)
    }
}

impl Timestamp {
    #[verifier::type_invariant]
    closed spec fn representable(self) -> bool {
        chrono_accepts(self.secs, self.nanos)
    }

    /// The moment `secs` seconds and `nanos` nanoseconds after 1970-01-01 UTC,
    /// if chrono can represent it.
    pub fn new(secs: i64, nanos: u32) -> (r: Option<Timestamp>)
        ensures
            r is Some <==> chrono_accepts(secs, nanos),
            r matches Some(t) ==> t@ == (secs, nanos),
    {
        if chrono_timestamp_ok(secs, nanos) {
            Some(Timestamp { secs, nanos })
        } else {
            None
        }
    }

    /// The current moment, which chrono can represent. Which moment it is
    /// depends on the clock.
    pub fn now() -> (r: Timestamp)
        ensures
            chrono_accepts(r@.0, r@.1),
    {
        let (secs, nanos) = chrono_now();
        Timestamp { secs, nanos }
    }

    /// Seconds since 1970-01-01 UTC.
    pub fn secs(&self) -> (r: i64)
        ensures
            r == self@.0,
    {
        self.secs
    }

    /// Nanoseconds into the second.
    pub fn nanos(&self) -> (r: u32)
        ensures
            r == self@.1,
    {
        self.nanos
    }

    /// The `Debug` text of the moment, as chrono writes it.
    pub fn debug_text(&self) -> (r: String)
        ensures
            r@ == chrono_debug(self@.0, self@.1),
    {
        proof {
            use_type_invariant(self);
        }
        chrono_debug_text(self.secs, self.nanos)
    }
}

/// One file of the log and when it was last opened.
#[derive(Debug)]
pub struct FileAccess {
    path: String,
    accessed: Timestamp,
}

impl View for FileAccess {
    type V = (Seq<char>, (i64, u32));

    closed spec fn view(&self) -> (Seq<char>, (i64, u32)) {
        (self.path@, self.accessed@)
    }
}

impl FileAccess {
    /// An entry for `path`, opened at `accessed`.
    pub fn new(path: String, accessed: Timestamp) -> (r: FileAccess)
        ensures
            r@ == (path@, accessed@),
    {
        FileAccess { path, accessed }
    }

    /// The file's path.
    pub fn path(&self) -> (r: &String)
        ensures
            r@ == self@.0,
    {
        &self.path
    }

    /// When the file was last opened.
    pub fn accessed(&self) -> (r: Timestamp)
        ensures
            r@ == self@.1,
    {
        self.accessed
    }
}

/// An entry of the log as the contracts see it: a path and a time.
pub type Entry = (Seq<char>, (i64, u32));

/// The log of recently opened files.
#[derive(Debug)]
pub struct FileAccessLog {
    /// The entries, oldest first.
    pub entries: Vec<FileAccess>,
}

impl View for FileAccessLog {
    type V = Seq<Entry>;

    open spec fn view(&self) -> Seq<Entry> {
        self.entries@.map_values(|e: FileAccess| e@)
    }
}

/// Index of the first entry of `s` for `path`, or -1 when there is none.
pub open spec fn first_index(s: Seq<Entry>, path: Seq<char>) -> int
    decreases s.len(),
{
    if s.len() == 0 {
        -1
    } else if first_index(s.drop_last(), path) >= 0 {
        first_index(s.drop_last(), path)
    } else if s.last().0 == path {
        s.len() - 1
    } else {
        -1
    }
}

/// `s` with the entry for `path` set to `(path, t)`: the first entry for
/// `path` is replaced in place, or a new entry is appended when there is none.
pub open spec fn upserted(s: Seq<Entry>, path: Seq<char>, t: (i64, u32)) -> Seq<Entry> {
    if first_index(s, path) >= 0 {
        s.update(first_index(s, path), (path, t))
    } else {
        s.push((path, t))
    }
}

/// The time of the first entry of `s` for `path`, if there is one.
pub open spec fn lookup(s: Seq<Entry>, path: Seq<char>) -> Option<(i64, u32)> {
    if first_index(s, path) >= 0 {
        Some(s[first_index(s, path)].1)
    } else {
        None
    }
}

/// No two entries of `s` are for the same path.
pub open spec fn paths_unique(s: Seq<Entry>) -> bool {
    forall|i: int, j: int| 0 <= i < j < s.len() ==> s[i].0 != s[j].0
}

/// The `Debug` text of one entry, from the `Debug` texts of its path and time.
pub open spec fn entry_listing(path_text: Seq<char>, time_text: Seq<char>) -> Seq<char> {
    "FileAccess { path: "@ + path_text + ", accessed: "@ + time_text + " }"@
}

/// The entries' texts, separated by `, `.
pub open spec fn entries_listing(items: Seq<(Seq<char>, Seq<char>)>) -> Seq<char>
    decreases items.len(),
{
    if items.len() == 0 {
        Seq::empty()
    } else if items.len() == 1 {
        entry_listing(items[0].0, items[0].1)
    } else {
        entries_listing(items.drop_last()) + ", "@ + entry_listing(items.last().0, items.last().1)
    }
}

/// The `Debug` text of a log, from the `Debug` texts of its entries' paths and
/// times.
pub open spec fn log_listing(items: Seq<(Seq<char>, Seq<char>)>) -> Seq<char> {
    "FileAccessLog { entries: ["@ + entries_listing(items) + "] }"@
}

/// The `Debug` texts of the paths and times of the entries.
pub open spec fn entry_texts(s: Seq<Entry>) -> Seq<(Seq<char>, Seq<char>)> {
    s.map_values(|e: Entry| (str_debug(e.0), chrono_debug(e.1.0, e.1.1)))
}

proof fn lemma_first_index_bounds(s: Seq<Entry>, path: Seq<char>)
    ensures
        -1 <= first_index(s, path) < s.len(),
        first_index(s, path) >= 0 ==> s[first_index(s, path)].0 == path,
        forall|i: int|
            0 <= i < s.len() && (first_index(s, path) < 0 || i < first_index(s, path)) ==> s[i].0
                != path,
    decreases s.len(),
{
    if s.len() > 0 {
        let d = s.drop_last();
        lemma_first_index_bounds(d, path);
        assert forall|i: int|
            0 <= i < s.len() && (first_index(s, path) < 0 || i < first_index(s, path)) implies s[i].0
            != path by {
            if i < s.len() - 1 {
                assert(s[i] == d[i]);
            }
        }
    }
}

proof fn lemma_first_index_at(s: Seq<Entry>, path: Seq<char>, k: int)
    requires
        0 <= k < s.len(),
        s[k].0 == path,
        forall|i: int| 0 <= i < k ==> s[i].0 != path,
    ensures
        first_index(s, path) == k,
    decreases s.len(),
{
    lemma_first_index_bounds(s, path);
    if s.len() - 1 > k {
        let d = s.drop_last();
        assert(d[k] == s[k]);
        assert forall|i: int| 0 <= i < k implies d[i].0 != path by {
            assert(d[i] == s[i]);
        }
        lemma_first_index_at(d, path, k);
    } else {
        let d = s.drop_last();
        lemma_first_index_bounds(d, path);
        if first_index(d, path) >= 0 {
            assert(d[first_index(d, path)] == s[first_index(d, path)]);
        }
    }
}

proof fn lemma_first_index_none(s: Seq<Entry>, path: Seq<char>)
    requires
        forall|i: int| 0 <= i < s.len() ==> s[i].0 != path,
    ensures
        first_index(s, path) == -1,
{
    lemma_first_index_bounds(s, path);
}

proof fn lemma_first_index_of_upserted(s: Seq<Entry>, path: Seq<char>, t: (i64, u32))
    ensures
        first_index(upserted(s, path, t), path) == (if first_index(s, path) >= 0 {
            first_index(s, path)
        } else {
            s.len() as int
        }),
{
    lemma_first_index_bounds(s, path);
    let u = upserted(s, path, t);
    if first_index(s, path) >= 0 {
        let k = first_index(s, path);
        assert forall|i: int| 0 <= i < k implies u[i].0 != path by {
            assert(u[i] == s[i]);
        }
        lemma_first_index_at(u, path, k);
    } else {
        assert forall|i: int| 0 <= i < s.len() implies u[i].0 != path by {
            assert(u[i] == s[i]);
        }
        lemma_first_index_at(u, path, s.len() as int);
    }
}

/// Read after write: once `path` is recorded at `t`, the log gives `t` for
/// `path`.
pub proof fn law_lookup_after_add(s: Seq<Entry>, path: Seq<char>, t: (i64, u32))
    ensures
        lookup(upserted(s, path, t), path) == Some(t),
{
    lemma_first_index_of_upserted(s, path, t);
    lemma_first_index_bounds(s, path);
}

/// Recording one path leaves what the log gives for every other path as it
/// was.
pub proof fn law_add_leaves_other_paths(
    s: Seq<Entry>,
    path: Seq<char>,
    other: Seq<char>,
    t: (i64, u32),
)
    requires
        other != path,
    ensures
        lookup(upserted(s, path, t), other) == lookup(s, other),
{
    lemma_first_index_bounds(s, path);
    lemma_first_index_bounds(s, other);
    let u = upserted(s, path, t);
    assert forall|i: int| 0 <= i < s.len() implies u[i].0 == other <==> s[i].0 == other by {
        if first_index(s, path) >= 0 && i == first_index(s, path) {
            assert(u[i].0 == path);
        } else {
            assert(u[i] == s[i]);
        }
    }
    if first_index(s, other) >= 0 {
        let m = first_index(s, other);
        assert forall|i: int| 0 <= i < m implies u[i].0 != other by {}
        lemma_first_index_at(u, other, m);
        assert(u[m] == s[m]);
    } else {
        assert forall|i: int| 0 <= i < u.len() implies u[i].0 != other by {
            if i == s.len() {
                assert(u[i].0 == path);
            }
        }
        lemma_first_index_none(u, other);
    }
}

/// Recording the same path twice is the same as recording it once, at the
/// later time.
pub proof fn law_add_twice_keeps_last(
    s: Seq<Entry>,
    path: Seq<char>,
    t1: (i64, u32),
    t2: (i64, u32),
)
    ensures
        upserted(upserted(s, path, t1), path, t2) == upserted(s, path, t2),
{
    lemma_first_index_of_upserted(s, path, t1);
    lemma_first_index_bounds(s, path);
    if first_index(s, path) >= 0 {
        assert(upserted(upserted(s, path, t1), path, t2) =~= upserted(s, path, t2));
    } else {
        let u1 = upserted(s, path, t1);
        assert(u1 == s.push((path, t1)));
        assert(upserted(u1, path, t2) == u1.update(s.len() as int, (path, t2)));
        assert(u1.update(s.len() as int, (path, t2)) =~= s.push((path, t2)));
    }
}

/// Recording a path adds an entry exactly when the log had none for it, and
/// keeps every path recorded at most once.
pub proof fn law_add_keeps_paths_unique(s: Seq<Entry>, path: Seq<char>, t: (i64, u32))
    ensures
        upserted(s, path, t).len() == s.len() + (if lookup(s, path) is None {
            1int
        } else {
            0int
        }),
        paths_unique(s) ==> paths_unique(upserted(s, path, t)),
{
    lemma_first_index_bounds(s, path);
    let u = upserted(s, path, t);
    if paths_unique(s) {
        if first_index(s, path) >= 0 {
            assert forall|i: int| 0 <= i < u.len() implies u[i].0 == s[i].0 by {}
        } else {
            assert forall|i: int, j: int| 0 <= i < j < u.len() implies u[i].0 != u[j].0 by {
                if j == s.len() {
                    assert(u[i] == s[i]);
                } else {
                    assert(u[i] == s[i] && u[j] == s[j]);
                }
            }
        }
    }
}

/// `needle` occurs in `hay` as a run of consecutive characters.
pub open spec fn occurs_in(needle: Seq<char>, hay: Seq<char>) -> bool {
    exists|i: int|
        0 <= i && i + needle.len() <= hay.len() && #[trigger] hay.subrange(i, i + needle.len())
            == needle
}

proof fn lemma_occurs_at(needle: Seq<char>, hay: Seq<char>, i: int)
    requires
        0 <= i && i + needle.len() <= hay.len(),
        hay.subrange(i, i + needle.len()) =~= needle,
    ensures
        occurs_in(needle, hay),
{
}

proof fn lemma_occurs_in_concat(needle: Seq<char>, a: Seq<char>, b: Seq<char>)
    ensures
        occurs_in(needle, a) ==> occurs_in(needle, a + b),
        occurs_in(needle, b) ==> occurs_in(needle, a + b),
{
    if occurs_in(needle, a) {
        let i = choose|i: int|
            0 <= i && i + needle.len() <= a.len() && #[trigger] a.subrange(i, i + needle.len())
                == needle;
        lemma_occurs_at(needle, a + b, i);
    }
    if occurs_in(needle, b) {
        let i = choose|i: int|
            0 <= i && i + needle.len() <= b.len() && #[trigger] b.subrange(i, i + needle.len())
                == needle;
        assert((a + b).subrange(a.len() + i, a.len() + i + needle.len()) =~= b.subrange(
            i,
            i + needle.len(),
        ));
        lemma_occurs_at(needle, a + b, a.len() + i);
    }
}

proof fn lemma_occurs_in_occurs(needle: Seq<char>, mid: Seq<char>, hay: Seq<char>)
    requires
        occurs_in(needle, mid),
        occurs_in(mid, hay),
    ensures
        occurs_in(needle, hay),
{
    let i = choose|i: int|
        0 <= i && i + needle.len() <= mid.len() && #[trigger] mid.subrange(i, i + needle.len())
            == needle;
    let j = choose|j: int|
        0 <= j && j + mid.len() <= hay.len() && #[trigger] hay.subrange(j, j + mid.len()) == mid;
    assert(hay.subrange(j + i, j + i + needle.len()) =~= mid.subrange(i, i + needle.len()));
    lemma_occurs_at(needle, hay, j + i);
}

proof fn lemma_entry_in_entries(items: Seq<(Seq<char>, Seq<char>)>, k: int)
    requires
        0 <= k < items.len(),
    ensures
        occurs_in(entry_listing(items[k].0, items[k].1), entries_listing(items)),
    decreases items.len(),
{
    let e = entry_listing(items[k].0, items[k].1);
    if items.len() == 1 {
        lemma_occurs_at(e, entries_listing(items), 0);
    } else if k == items.len() - 1 {
        lemma_occurs_at(e, e, 0);
        lemma_occurs_in_concat(e, entries_listing(items.drop_last()) + ", "@, e);
    } else {
        lemma_entry_in_entries(items.drop_last(), k);
        assert(items.drop_last()[k] == items[k]);
        lemma_occurs_in_concat(e, entries_listing(items.drop_last()), ", "@);
        lemma_occurs_in_concat(
            e,
            entries_listing(items.drop_last()) + ", "@,
            entry_listing(items.last().0, items.last().1),
        );
    }
}

/// After a file is recorded, the `Debug` text of the log holds the entry for
/// it, with the file's path as std quotes it and the recorded time as chrono
/// writes it; in particular it holds the quoted path.
pub proof fn law_listing_after_add(s: Seq<Entry>, path: Seq<char>, t: (i64, u32))
    ensures
        occurs_in(
            entry_listing(str_debug(path), chrono_debug(t.0, t.1)),
            log_listing(entry_texts(upserted(s, path, t))),
        ),
        occurs_in(str_debug(path), log_listing(entry_texts(upserted(s, path, t)))),
{
    let u = upserted(s, path, t);
    lemma_first_index_of_upserted(s, path, t);
    lemma_first_index_bounds(u, path);
    law_lookup_after_add(s, path, t);
    let k = first_index(u, path);
    let items = entry_texts(u);
    assert(items[k] == (str_debug(path), chrono_debug(t.0, t.1)));
    lemma_entry_in_entries(items, k);
    let e = entry_listing(str_debug(path), chrono_debug(t.0, t.1));
    lemma_occurs_in_concat(e, "FileAccessLog { entries: ["@, entries_listing(items));
    lemma_occurs_in_concat(
        e,
        "FileAccessLog { entries: ["@ + entries_listing(items),
        "] }"@,
    );
    let a = "FileAccess { path: "@;
    let b = ", accessed: "@;
    lemma_occurs_at(str_debug(path), str_debug(path), 0);
    lemma_occurs_in_concat(str_debug(path), a, str_debug(path));
    lemma_occurs_in_concat(str_debug(path), a + str_debug(path), b);
    lemma_occurs_in_concat(str_debug(path), a + str_debug(path) + b, chrono_debug(t.0, t.1));
    lemma_occurs_in_concat(
        str_debug(path),
        a + str_debug(path) + b + chrono_debug(t.0, t.1),
        " }"@,
    );
    lemma_occurs_in_occurs(str_debug(path), e, log_listing(items));
}

/// The listing of an empty log names no entry.
pub proof fn law_listing_of_empty_log()
    ensures
        log_listing(Seq::empty()) == "FileAccessLog { entries: [] }"@,
{
    reveal_strlit("FileAccessLog { entries: [");
    reveal_strlit("] }");
    reveal_strlit("FileAccessLog { entries: [] }");
    assert(log_listing(Seq::empty()) =~= "FileAccessLog { entries: [] }"@);
}

/// The listing of a log with one entry holds that entry's text and nothing
/// else between the brackets.
pub proof fn law_listing_of_one_entry(x: (Seq<char>, Seq<char>))
    ensures
        log_listing(seq![x]) == "FileAccessLog { entries: ["@ + entry_listing(x.0, x.1) + "] }"@,
{
}

/// Adding an entry to a non-empty log adds exactly one entry text to its
/// listing: the new listing is the old one without its closing `] }`, then
/// `, `, the new entry's text, and the closing `] }`. So each entry is listed
/// once, in order.
pub proof fn law_listing_grows_by_one_entry(
    items: Seq<(Seq<char>, Seq<char>)>,
    x: (Seq<char>, Seq<char>),
)
    requires
        items.len() > 0,
    ensures
        log_listing(items.push(x)) == log_listing(items).take(log_listing(items).len() - 3)
            + ", "@ + entry_listing(x.0, x.1) + "] }"@,
{
    reveal_strlit("] }");
    let head = "FileAccessLog { entries: ["@;
    let tail = "] }"@;
    assert(tail.len() == 3);
    let old = log_listing(items);
    assert(items.push(x).drop_last() =~= items);
    assert(old.take(old.len() - 3) =~= head + entries_listing(items));
    assert(log_listing(items.push(x)) =~= head + entries_listing(items) + ", "@ + entry_listing(
        x.0,
        x.1,
    ) + tail);
}

impl FileAccessLog {
    /// A log with no entries.
    pub fn new() -> (r: FileAccessLog)
        ensures
            r@ == Seq::<Entry>::empty(),
    {
        let r = FileAccessLog { entries: Vec::new() };
        assert(r@ =~= Seq::<Entry>::empty());
        r
    }

    /// Records that `path` was opened at `accessed`: the first entry for
    /// `path` gets the new time and keeps its place; when there is none, an
    /// entry is appended.
    pub fn add_at(&mut self, path: String, accessed: Timestamp)
        ensures
            final(self)@ == upserted(old(self)@, path@, accessed@),
    {
        let n = self.entries.len();
        let ghost s = self@;
        let mut i: usize = 0;
        while i < n
            invariant
                n == self.entries@.len(),
                s == self@,
                s == old(self)@,
                i <= n,
                forall|j: int| 0 <= j < i ==> s[j].0 != path@,
            decreases n - i,
        {
            assert(s[i as int] == self.entries@[i as int]@);
            if crate::text::str_equal(self.entries[i].path.as_str(), path.as_str()) {
                proof {
                    lemma_first_index_at(s, path@, i as int);
                }
                let entry = FileAccess { path, accessed };
                self.entries.set(i, entry);
                assert(self@ =~= upserted(s, path@, accessed@));
                return;
            }
            i = i + 1;
        }
        proof {
            lemma_first_index_none(s, path@);
        }
        self.entries.push(FileAccess { path, accessed });
        assert(self@ =~= upserted(s, path@, accessed@));
    }

    /// Records that `path` was opened now.
    pub fn add(&mut self, path: String)
        ensures
            exists|t: (i64, u32)|
                chrono_accepts(t.0, t.1) && final(self)@ == upserted(old(self)@, path@, t),
    {
        let now = Timestamp::now();
        proof {
            use_type_invariant(&now);
        }
        self.add_at(path, now);
    }
}

/// Records in `access_log` that the file at `source_path` (a canonical path)
/// was opened now.
pub fn log(access_log: &mut FileAccessLog, source_path: String)
    ensures
        exists|t: (i64, u32)|
            chrono_accepts(t.0, t.1) && final(access_log)@ == upserted(
                old(access_log)@,
                source_path@,
                t,
            ),
{
    access_log.add(source_path);
}

/// The `Debug` text of a log, given the `Debug` texts of its entries' paths
/// and times, in order.
pub fn render_listing(items: &Vec<(String, String)>) -> (r: String)
    ensures
        r@ == log_listing(items@.map_values(|x: (String, String)| (x.0@, x.1@))),
{
    let ghost texts = items@.map_values(|x: (String, String)| (x.0@, x.1@));
    let mut r = String::from_str("FileAccessLog { entries: [");
    let n = items.len();
    let ghost head = r@;
    for i in 0..n
        invariant
            n == items@.len(),
            texts == items@.map_values(|x: (String, String)| (x.0@, x.1@)),
            r@ == head + entries_listing(texts.take(i as int)),
    {
        let ghost before = r@;
        if i > 0 {
            append_str(&mut r, ", ");
        }
        append_str(&mut r, "FileAccess { path: ");
        append_str(&mut r, items[i].0.as_str());
        append_str(&mut r, ", accessed: ");
        append_str(&mut r, items[i].1.as_str());
        append_str(&mut r, " }");
        proof {
            let t = texts.take(i + 1);
            assert(t.drop_last() =~= texts.take(i as int));
            assert(t.last() == (items@[i as int].0@, items@[i as int].1@));
            if i == 0 {
                assert(texts.take(0) =~= Seq::<(Seq<char>, Seq<char>)>::empty());
                assert(r@ =~= head + entries_listing(t));
            } else {
                assert(r@ =~= head + entries_listing(t));
            }
        }
    }
    assert(texts.take(n as int) =~= texts);
    append_str(&mut r, "] }");
    assert(r@ =~= log_listing(texts));
    r
}

/// The `Debug` text of the log: each entry's path as std quotes a string and
/// its time as chrono writes it.
pub fn list(access_log: &FileAccessLog) -> (r: String)
    ensures
        r@ == log_listing(entry_texts(access_log@)),
{
    let mut items: Vec<(String, String)> = Vec::new();
    let n = access_log.entries.len();
    for i in 0..n
        invariant
            n == access_log.entries@.len(),
            items@.map_values(|x: (String, String)| (x.0@, x.1@)) =~= entry_texts(
                access_log@,
            ).take(i as int),
    {
        let e = &access_log.entries[i];
        let p = debug_str(e.path.as_str());
        let t = e.accessed.debug_text();
        let ghost prev = items@;
        proof {
            assert(access_log@[i as int] == e@);
            assert(entry_texts(access_log@)[i as int] == (p@, t@));
        }
        items.push((p, t));
        assert(items@.map_values(|x: (String, String)| (x.0@, x.1@)) =~= prev.map_values(
            |x: (String, String)| (x.0@, x.1@),
        ).push(entry_texts(access_log@)[i as int]));
        assert(entry_texts(access_log@).take(i + 1) =~= entry_texts(access_log@).take(
            i as int,
        ).push(entry_texts(access_log@)[i as int]));
    }
    assert(entry_texts(access_log@).take(n as int) =~= entry_texts(access_log@));
    render_listing(&items)
}

/// Where the log is kept under the data directory `data_dir`: the directory
/// `data_dir/pelp` and, in it, the file `recent.db`.
pub fn access_log_location(data_dir: &str) -> (r: (String, String))
    ensures
        r.0@ == joined(data_dir@, "pelp"@),
        r.1@ == joined(r.0@, "recent.db"@),
{
    let dir = join(data_dir, "pelp");
    let file = join(dir.as_str(), "recent.db");
    (dir, file)
}

} // verus!
