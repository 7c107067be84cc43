//! The persisted conflict memo: a mapping from branch name to the commit
//! at which the last rebase attempt on that branch ended unresolved.
//!
//! The memo survives between runs in a small configuration document with
//! one recognized table. Writing and reading that document are exact
//! inverses of one another, which `lemma_save_load_round_trip` proves.

use vstd::prelude::*;
use crate::text::bytes_eq;
use crate::text::clone_bytes;
use crate::text::subvec;

verus! {

/// One memo entry: branch `branch` last failed to rebase while pointing
/// at commit `commit`.
#[derive(Debug, Clone, PartialEq, Eq)]
pub struct MemoEntry {
    pub branch: Vec<u8>,
    pub commit: Vec<u8>,
}

impl View for MemoEntry {
    type V = (Seq<u8>, Seq<u8>);

    open spec fn view(&self) -> (Seq<u8>, Seq<u8>) {
        (self.branch@, self.commit@)
    }
}

/// The memo, keyed by branch name; at most one entry per branch.
#[derive(Debug, Clone, PartialEq, Eq)]
pub struct Memo {
    pub entries: Vec<MemoEntry>,
}

impl View for Memo {
    type V = Seq<(Seq<u8>, Seq<u8>)>;

    open spec fn view(&self) -> Seq<(Seq<u8>, Seq<u8>)> {
        self.entries@.map_values(|en: MemoEntry| en@)
    }
}

/// Index of the first entry with key `k` at or after `i`, or `e.len()`.
pub open spec fn key_index_from(e: Seq<(Seq<u8>, Seq<u8>)>, k: Seq<u8>, i: int) -> int
    decreases e.len() - i,
{
    if i < 0 || i >= e.len() {
        e.len() as int
    } else if e[i].0 == k {
        i
    } else {
        key_index_from(e, k, i + 1)
    }
}

pub proof fn lemma_key_index_from(e: Seq<(Seq<u8>, Seq<u8>)>, k: Seq<u8>, i: int)
    requires
        0 <= i <= e.len(),
    ensures
        i <= key_index_from(e, k, i) <= e.len(),
        key_index_from(e, k, i) < e.len() ==> e[key_index_from(e, k, i)].0 == k,
        forall|j: int| i <= j < key_index_from(e, k, i) ==> e[j].0 != k,
    decreases e.len() - i,
{
    if i < e.len() && e[i].0 != k {
        lemma_key_index_from(e, k, i + 1);
    }
}

/// The commit recorded for branch `k`, if any.
pub open spec fn lookup(e: Seq<(Seq<u8>, Seq<u8>)>, k: Seq<u8>) -> Option<Seq<u8>> {
    let j = key_index_from(e, k, 0);
    if j < e.len() {
        Some(e[j].1)
    } else {
        None
    }
}

/// No two entries share a key.
pub open spec fn keys_unique(e: Seq<(Seq<u8>, Seq<u8>)>) -> bool {
    forall|p: int, q: int| 0 <= p < q < e.len() ==> e[p].0 != e[q].0
}

/// The memo without any entry for `k`.
pub open spec fn remove_key(e: Seq<(Seq<u8>, Seq<u8>)>, k: Seq<u8>) -> Seq<(Seq<u8>, Seq<u8>)> {
    let j = key_index_from(e, k, 0);
    if j < e.len() {
        e.remove(j)
    } else {
        e
    }
}

/// The memo with `k` now mapped to `v` and to nothing else.
pub open spec fn insert_key(
    e: Seq<(Seq<u8>, Seq<u8>)>,
    k: Seq<u8>,
    v: Seq<u8>,
) -> Seq<(Seq<u8>, Seq<u8>)> {
    remove_key(e, k).push((k, v))
}

pub proof fn lemma_remove_key(e: Seq<(Seq<u8>, Seq<u8>)>, k: Seq<u8>)
    requires
        keys_unique(e),
    ensures
        keys_unique(remove_key(e, k)),
        forall|j: int| 0 <= j < remove_key(e, k).len() ==> remove_key(e, k)[j].0 != k,
        lookup(remove_key(e, k), k) is None,
{
    lemma_key_index_from(e, k, 0);
    let r = remove_key(e, k);
    assert(forall|j: int| 0 <= j < r.len() ==> r[j].0 != k);
    lemma_key_index_from(r, k, 0);
}

// ---------------------------------------------------------------------
// The document format: a recognized table header, then one line per
// entry, key and value written as quoted strings with `"` and `\`
// escaped.
// ---------------------------------------------------------------------

/// The table header line.
pub open spec fn header() -> Seq<u8> {
    seq![0x5bu8, 0x62, 0x72, 0x61, 0x6e, 0x63, 0x68, 0x65, 0x73, 0x5d, 0x0a]
}

pub open spec fn esc_byte(b: u8) -> Seq<u8> {
    if b == 0x22 || b == 0x5c {
        seq![0x5cu8, b]
    } else {
        seq![b]
    }
}

/// `s` with every quote and backslash escaped.
pub open spec fn esc(s: Seq<u8>) -> Seq<u8>
    decreases s.len(),
{
    if s.len() == 0 {
        Seq::empty()
    } else {
        esc(s.drop_last()) + esc_byte(s.last())
    }
}

pub open spec fn quoted(s: Seq<u8>) -> Seq<u8> {
    seq![0x22u8] + esc(s) + seq![0x22u8]
}

/// One document line: `"key" = "value"` and a newline.
pub open spec fn entry_line(k: Seq<u8>, v: Seq<u8>) -> Seq<u8> {
    quoted(k) + seq![0x20u8, 0x3d, 0x20] + quoted(v) + seq![0x0au8]
}

pub open spec fn doc_entries(e: Seq<(Seq<u8>, Seq<u8>)>) -> Seq<u8>
    decreases e.len(),
{
    if e.len() == 0 {
        Seq::empty()
    } else {
        entry_line(e[0].0, e[0].1) + doc_entries(e.drop_first())
    }
}

/// The whole document for memo `e`.
pub open spec fn serialize_spec(e: Seq<(Seq<u8>, Seq<u8>)>) -> Seq<u8> {
    header() + doc_entries(e)
}

/// Free of newlines; branch names and commit hashes always are, and only
/// such strings survive the round trip through the document.
pub open spec fn text_ok(s: Seq<u8>) -> bool {
    forall|j: int| 0 <= j < s.len() ==> s[j] != 0x0a
}

pub open spec fn entries_ok(e: Seq<(Seq<u8>, Seq<u8>)>) -> bool {
    forall|i: int| 0 <= i < e.len() ==> #[trigger] text_ok(e[i].0) && text_ok(e[i].1)
}

// ---------------------------------------------------------------------
// Parsing the document.
// ---------------------------------------------------------------------

/// The body of a quoted string starting at `i` (after the opening
/// quote): the unescaped text and the position after the closing quote.
pub open spec fn qbody_at(s: Seq<u8>, i: int) -> Option<(Seq<u8>, int)>
    decreases s.len() - i,
{
    if i < 0 || i >= s.len() {
        None
    } else if s[i] == 0x22 {
        Some((Seq::empty(), i + 1))
    } else if s[i] == 0x5c {
        if i + 1 < s.len() && (s[i + 1] == 0x22 || s[i + 1] == 0x5c) {
            match qbody_at(s, i + 2) {
                None => None,
                Some((t, j)) => Some((seq![s[i + 1]] + t, j)),
            }
        } else {
            None
        }
    } else if s[i] == 0x0a {
        None
    } else {
        match qbody_at(s, i + 1) {
            None => None,
            Some((t, j)) => Some((seq![s[i]] + t, j)),
        }
    }
}

/// A character allowed in a bare (unquoted) key.
pub open spec fn bare_char(b: u8) -> bool {
    (0x30 <= b <= 0x39) || (0x41 <= b <= 0x5a) || (0x61 <= b <= 0x7a) || b == 0x2d || b == 0x5f
}

/// End of the run of bare-key characters starting at `i`.
pub open spec fn bare_end(s: Seq<u8>, i: int) -> int
    decreases s.len() - i,
{
    if i < 0 || i >= s.len() {
        if i < 0 {
            0
        } else {
            i
        }
    } else if bare_char(s[i]) {
        bare_end(s, i + 1)
    } else {
        i
    }
}

/// End of the run of spaces starting at `i`.
pub open spec fn spaces_at(s: Seq<u8>, i: int) -> int
    decreases s.len() - i,
{
    if i < 0 || i >= s.len() {
        if i < 0 {
            0
        } else {
            i
        }
    } else if s[i] == 0x20 {
        spaces_at(s, i + 1)
    } else {
        i
    }
}

/// A key at `i`: quoted, or a nonempty run of bare characters.
pub open spec fn key_at(s: Seq<u8>, i: int) -> Option<(Seq<u8>, int)> {
    if i < 0 || i >= s.len() {
        None
    } else if s[i] == 0x22 {
        qbody_at(s, i + 1)
    } else {
        let j = bare_end(s, i);
        if j > i {
            Some((s.subrange(i, j), j))
        } else {
            None
        }
    }
}

/// One entry line at `i`: key, `=` amid optional spaces, quoted value,
/// newline; the entry and the position after the newline.
pub open spec fn entry_at(s: Seq<u8>, i: int) -> Option<((Seq<u8>, Seq<u8>), int)> {
    match key_at(s, i) {
        None => None,
        Some((k, i1)) => {
            let i2 = spaces_at(s, i1);
            if !(i2 < s.len() && s[i2] == 0x3d) {
                None
            } else {
                let i3 = spaces_at(s, i2 + 1);
                if !(i3 < s.len() && s[i3] == 0x22) {
                    None
                } else {
                    match qbody_at(s, i3 + 1) {
                        None => None,
                        Some((v, i4)) => {
                            if i4 < s.len() && s[i4] == 0x0a {
                                Some(((k, v), i4 + 1))
                            } else {
                                None
                            }
                        },
                    }
                }
            }
        },
    }
}

/// All entry lines from `i` to the end of the document.
pub open spec fn entries_at(s: Seq<u8>, i: int) -> Option<Seq<(Seq<u8>, Seq<u8>)>>
    decreases s.len() - i,
{
    if !(0 <= i <= s.len()) {
        None
    } else if i == s.len() {
        Some(Seq::empty())
    } else {
        match entry_at(s, i) {
            None => None,
            Some((kv, j)) => {
                if i < j <= s.len() {
                    match entries_at(s, j) {
                        None => None,
                        Some(r) => Some(seq![kv] + r),
                    }
                } else {
                    None
                }
            },
        }
    }
}

/// The entries of a well-formed document: header line, then entry lines.
pub open spec fn parse_doc_spec(s: Seq<u8>) -> Option<Seq<(Seq<u8>, Seq<u8>)>> {
    if s.len() >= 11 && s.subrange(0, 11) == header() {
        entries_at(s, 11)
    } else {
        None
    }
}

/// The memo a document denotes: its entries, provided no key repeats.
pub open spec fn parse_memo_spec(s: Seq<u8>) -> Option<Seq<(Seq<u8>, Seq<u8>)>> {
    match parse_doc_spec(s) {
        None => None,
        Some(e) => {
            if keys_unique(e) {
                Some(e)
            } else {
                None
            }
        },
    }
}

// ---------------------------------------------------------------------
// Executable operations.
// ---------------------------------------------------------------------

/// Append `quoted(s@)` to `out`.
fn push_quoted(out: &mut Vec<u8>, s: &Vec<u8>)
    ensures
        final(out)@ == old(out)@ + quoted(s@),
{
    let ghost start = out@;
    out.push(0x22);
    let mut i: usize = 0;
    while i < s.len()
        invariant
            i <= s@.len(),
            out@ == start + seq![0x22u8] + esc(s@.take(i as int)),
        decreases s@.len() - i,
    {
        let ghost before = s@.take(i as int);
        let b = s[i];
        if b == 0x22 || b == 0x5c {
            out.push(0x5c);
            out.push(b);
        } else {
            out.push(b);
        }
        i = i + 1;
        proof {
            let now = s@.take(i as int);
            assert(now.drop_last() =~= before);
            assert(now.last() == b);
            assert(esc(now) == esc(before) + esc_byte(b));
            assert(start + seq![0x22u8] + (esc(before) + esc_byte(b)) =~= (start + seq![0x22u8]
                + esc(before)) + esc_byte(b));
        }
    }
    proof {
        assert(s@.take(s@.len() as int) =~= s@);
    }
    out.push(0x22);
    proof {
        assert(out@ =~= start + quoted(s@));
    }
}

pub proof fn lemma_doc_entries_snoc(u: Seq<(Seq<u8>, Seq<u8>)>, x: (Seq<u8>, Seq<u8>))
    ensures
        doc_entries(u.push(x)) == doc_entries(u) + entry_line(x.0, x.1),
    decreases u.len(),
{
    if u.len() == 0 {
        assert(u.push(x).drop_first() =~= Seq::<(Seq<u8>, Seq<u8>)>::empty());
        assert(u.push(x)[0] == x);
        assert(doc_entries(Seq::<(Seq<u8>, Seq<u8>)>::empty()) == Seq::<u8>::empty());
        assert(doc_entries(u) == Seq::<u8>::empty());
        assert(doc_entries(u.push(x)) == entry_line(x.0, x.1) + doc_entries(
            u.push(x).drop_first(),
        ));
        assert(entry_line(x.0, x.1) + Seq::<u8>::empty() =~= entry_line(x.0, x.1));
        assert(Seq::<u8>::empty() + entry_line(x.0, x.1) =~= entry_line(x.0, x.1));
    } else {
        lemma_doc_entries_snoc(u.drop_first(), x);
        assert(u.push(x).drop_first() =~= u.drop_first().push(x));
        assert(u.push(x)[0] == u[0]);
        let el0 = entry_line(u[0].0, u[0].1);
        assert(doc_entries(u.push(x)) == el0 + doc_entries(u.push(x).drop_first()));
        assert(doc_entries(u) == el0 + doc_entries(u.drop_first()));
        assert(el0 + (doc_entries(u.drop_first()) + entry_line(x.0, x.1)) =~= (el0 + doc_entries(
            u.drop_first(),
        )) + entry_line(x.0, x.1));
    }
}

impl Memo {
    /// No two entries name the same branch.
    pub open spec fn wf(&self) -> bool {
        keys_unique(self@)
    }

    /// The empty memo, as a missing state file denotes.
    pub fn new() -> (r: Memo)
        ensures
            r@ == Seq::<(Seq<u8>, Seq<u8>)>::empty(),
            r.wf(),
    {
        let r = Memo { entries: Vec::new() };
        proof {
            assert(r@ =~= Seq::<(Seq<u8>, Seq<u8>)>::empty());
        }
        r
    }

    /// Index of the entry for `b`, or the number of entries if there is
    /// none.
    fn index_of(&self, b: &Vec<u8>) -> (r: usize)
        ensures
            r as int == key_index_from(self@, b@, 0),
    {
        let mut i: usize = 0;
        while i < self.entries.len()
            invariant
                i <= self@.len(),
                self@.len() == self.entries@.len(),
                key_index_from(self@, b@, 0) == key_index_from(self@, b@, i as int),
            decreases self@.len() - i,
        {
            proof {
                assert(self@[i as int] == self.entries@[i as int]@);
            }
            if bytes_eq(&self.entries[i].branch, b) {
                return i;
            }
            i = i + 1;
        }
        i
    }

    /// The commit recorded for branch `b`, if any.
    pub fn get(&self, b: &Vec<u8>) -> (r: Option<Vec<u8>>)
        ensures
            match r {
                Some(v) => lookup(self@, b@) == Some(v@),
                None => lookup(self@, b@) is None,
            },
    {
        let i = self.index_of(b);
        if i < self.entries.len() {
            proof {
                assert(self@[i as int] == self.entries@[i as int]@);
            }
            Some(clone_bytes(&self.entries[i].commit))
        } else {
            None
        }
    }

    /// Drop any entry for branch `b`; the optimistic retry at the start
    /// of an attempt.
    pub fn forget(&mut self, b: &Vec<u8>)
        ensures
            final(self)@ == remove_key(old(self)@, b@),
            old(self).wf() ==> final(self).wf(),
    {
        proof {
            if old(self).wf() {
                lemma_remove_key(old(self)@, b@);
            }
        }
        let i = self.index_of(b);
        if i < self.entries.len() {
            self.entries.remove(i);
            proof {
                assert(self@ =~= old(self)@.remove(i as int));
            }
        }
    }

    /// Record that branch `b` now stands at commit `c` after an
    /// unresolved conflict.
    pub fn remember(&mut self, b: &Vec<u8>, c: &Vec<u8>)
        ensures
            final(self)@ == insert_key(old(self)@, b@, c@),
            old(self).wf() ==> final(self).wf(),
    {
        proof {
            if old(self).wf() {
                lemma_remove_key(old(self)@, b@);
            }
        }
        self.forget(b);
        let entry = MemoEntry { branch: clone_bytes(b), commit: clone_bytes(c) };
        self.entries.push(entry);
        proof {
            assert(self@ =~= remove_key(old(self)@, b@).push((b@, c@)));
            if old(self).wf() {
                let e = self@;
                assert(forall|p: int, q: int| 0 <= p < q < e.len() ==> e[p].0 != e[q].0);
            }
        }
    }

    /// Write the memo out as its document.
    pub fn serialize(&self) -> (r: Vec<u8>)
        ensures
            r@ == serialize_spec(self@),
    {
        let mut out: Vec<u8> = Vec::new();
        out.push(0x5b);
        out.push(0x62);
        out.push(0x72);
        out.push(0x61);
        out.push(0x6e);
        out.push(0x63);
        out.push(0x68);
        out.push(0x65);
        out.push(0x73);
        out.push(0x5d);
        out.push(0x0a);
        proof {
            assert(out@ =~= header());
            assert(out@ =~= header() + doc_entries(self@.take(0)));
        }
        let mut i: usize = 0;
        while i < self.entries.len()
            invariant
                i <= self@.len(),
                self@.len() == self.entries@.len(),
                out@ == header() + doc_entries(self@.take(i as int)),
            decreases self@.len() - i,
        {
            let ghost done = self@.take(i as int);
            let ghost base = out@;
            proof {
                assert(self@[i as int] == self.entries@[i as int]@);
            }
            push_quoted(&mut out, &self.entries[i].branch);
            out.push(0x20);
            out.push(0x3d);
            out.push(0x20);
            push_quoted(&mut out, &self.entries[i].commit);
            out.push(0x0a);
            proof {
                let kv = self@[i as int];
                assert(out@ =~= base + entry_line(kv.0, kv.1));
                lemma_doc_entries_snoc(done, kv);
                assert(self@.take(i + 1) =~= done.push(kv));
                assert(header() + (doc_entries(done) + entry_line(kv.0, kv.1)) =~= (header()
                    + doc_entries(done)) + entry_line(kv.0, kv.1));
            }
            i = i + 1;
        }
        proof {
            assert(self@.take(self@.len() as int) =~= self@);
        }
        out
    }

    /// Read a memo back from its document. `None` means the document is
    /// malformed or names some branch twice.
    pub fn parse(doc: &Vec<u8>) -> (r: Option<Memo>)
        ensures
            match r {
                Some(m) => parse_memo_spec(doc@) == Some(m@) && m.wf(),
                None => parse_memo_spec(doc@) is None,
            },
    {
        if doc.len() < 11 {
            return None;
        }
        if !(doc[0] == 0x5b && doc[1] == 0x62 && doc[2] == 0x72 && doc[3] == 0x61 && doc[4]
            == 0x6e && doc[5] == 0x63 && doc[6] == 0x68 && doc[7] == 0x65 && doc[8] == 0x73
            && doc[9] == 0x5d && doc[10] == 0x0a) {
            proof {
                if doc@.subrange(0, 11) == header() {
                    assert(forall|t: int|
                        0 <= t < 11 ==> doc@.subrange(0, 11)[t] == #[trigger] doc@[t]);
                    assert(doc@[0] == 0x5b && doc@[1] == 0x62 && doc@[2] == 0x72 && doc@[3]
                        == 0x61 && doc@[4] == 0x6e && doc@[5] == 0x63 && doc@[6] == 0x68 && doc@[7]
                        == 0x65 && doc@[8] == 0x73 && doc@[9] == 0x5d && doc@[10] == 0x0a);
                }
            }
            return None;
        }
        proof {
            assert(doc@.subrange(0, 11) =~= header());
        }
        let mut m = Memo { entries: Vec::new() };
        proof {
            assert(m@ =~= Seq::<(Seq<u8>, Seq<u8>)>::empty());
        }
        let mut i: usize = 11;
        while i < doc.len()
            invariant
                11 <= i <= doc@.len(),
                doc@.len() >= 11,
                doc@.subrange(0, 11) == header(),
                m.wf(),
                match entries_at(doc@, i as int) {
                    Some(r) => entries_at(doc@, 11) == Some(m@ + r),
                    None => entries_at(doc@, 11) is None,
                },
            decreases doc@.len() - i,
        {
            let parsed = parse_entry(doc, i);
            match parsed {
                None => {
                    return None;
                },
                Some((ent, j)) => {
                    let dup = m.get(&ent.branch);
                    if dup.is_some() {
                        proof {
                            lemma_key_index_from(m@, ent.branch@, 0);
                            let t = key_index_from(m@, ent.branch@, 0);
                            if let Some(r) = entries_at(doc@, j as int) {
                                let full = m@ + (seq![(ent.branch@, ent.commit@)] + r);
                                assert(full[t] == m@[t]);
                                assert(full[m@.len() as int] == (ent.branch@, ent.commit@));
                                assert(!keys_unique(full));
                            }
                        }
                        return None;
                    }
                    let ghost pre = m@;
                    m.remember(&ent.branch, &ent.commit);
                    proof {
                        assert(remove_key(pre, ent.branch@) == pre) by {
                            lemma_key_index_from(pre, ent.branch@, 0);
                        }
                        assert(m@ == pre.push((ent.branch@, ent.commit@)));
                        if let Some(r) = entries_at(doc@, j as int) {
                            assert(pre + (seq![(ent.branch@, ent.commit@)] + r) =~= m@ + r);
                        }
                    }
                    i = j;
                },
            }
        }
        proof {
            assert(entries_at(doc@, i as int) == Some(Seq::<(Seq<u8>, Seq<u8>)>::empty()));
            assert(m@ + Seq::<(Seq<u8>, Seq<u8>)>::empty() =~= m@);
        }
        Some(m)
    }
}

/// End of the run of spaces starting at `start`.
fn skip_spaces(s: &Vec<u8>, start: usize) -> (r: usize)
    requires
        start <= s@.len(),
    ensures
        r as int == spaces_at(s@, start as int),
        start <= r <= s@.len(),
{
    let mut i = start;
    while i < s.len()
        invariant
            start <= i <= s@.len(),
            spaces_at(s@, start as int) == spaces_at(s@, i as int),
        decreases s@.len() - i,
    {
        if s[i] != 0x20 {
            return i;
        }
        i = i + 1;
    }
    i
}

/// End of the run of bare-key characters starting at `start`.
fn scan_bare(s: &Vec<u8>, start: usize) -> (r: usize)
    requires
        start <= s@.len(),
    ensures
        r as int == bare_end(s@, start as int),
        start <= r <= s@.len(),
{
    let mut i = start;
    while i < s.len()
        invariant
            start <= i <= s@.len(),
            bare_end(s@, start as int) == bare_end(s@, i as int),
        decreases s@.len() - i,
    {
        let b = s[i];
        let bare = (0x30 <= b && b <= 0x39) || (0x41 <= b && b <= 0x5a) || (0x61 <= b && b
            <= 0x7a) || b == 0x2d || b == 0x5f;
        if !bare {
            return i;
        }
        i = i + 1;
    }
    i
}

/// The body of a quoted string, from just after the opening quote.
fn parse_qbody(s: &Vec<u8>, start: usize) -> (r: Option<(Vec<u8>, usize)>)
    requires
        start <= s@.len(),
    ensures
        match r {
            Some((t, j)) => qbody_at(s@, start as int) == Some((t@, j as int)) && start < j
                <= s@.len(),
            None => qbody_at(s@, start as int) is None,
        },
{
    let mut out: Vec<u8> = Vec::new();
    let mut i = start;
    loop
        invariant
            start <= i <= s@.len(),
            match qbody_at(s@, i as int) {
                Some((t, j)) => qbody_at(s@, start as int) == Some((out@ + t, j)),
                None => qbody_at(s@, start as int) is None,
            },
        decreases s@.len() - i,
    {
        if i >= s.len() {
            return None;
        }
        let ghost pre = out@;
        let b = s[i];
        if b == 0x22 {
            proof {
                assert(out@ + Seq::<u8>::empty() =~= out@);
            }
            return Some((out, i + 1));
        } else if b == 0x5c {
            if i + 1 < s.len() && (s[i + 1] == 0x22 || s[i + 1] == 0x5c) {
                let c = s[i + 1];
                out.push(c);
                proof {
                    assert(out@ =~= pre + seq![c]);
                    if let Some((t, j)) = qbody_at(s@, i + 2) {
                        assert(pre + (seq![c] + t) =~= out@ + t);
                    }
                }
                i = i + 2;
            } else {
                return None;
            }
        } else if b == 0x0a {
            return None;
        } else {
            out.push(b);
            proof {
                assert(out@ =~= pre + seq![b]);
                if let Some((t, j)) = qbody_at(s@, i + 1) {
                    assert(pre + (seq![b] + t) =~= out@ + t);
                }
            }
            i = i + 1;
        }
    }
}

/// A key: quoted, or a nonempty run of bare characters.
fn parse_key(s: &Vec<u8>, start: usize) -> (r: Option<(Vec<u8>, usize)>)
    requires
        start <= s@.len(),
    ensures
        match r {
            Some((t, j)) => key_at(s@, start as int) == Some((t@, j as int)) && start < j
                <= s@.len(),
            None => key_at(s@, start as int) is None,
        },
{
    if start >= s.len() {
        return None;
    }
    if s[start] == 0x22 {
        match parse_qbody(s, start + 1) {
            None => None,
            Some((t, j)) => Some((t, j)),
        }
    } else {
        let j = scan_bare(s, start);
        if j > start {
            Some((subvec(s, start, j), j))
        } else {
            None
        }
    }
}

/// One entry line, from `start` to just past its newline.
fn parse_entry(s: &Vec<u8>, start: usize) -> (r: Option<(MemoEntry, usize)>)
    requires
        start <= s@.len(),
    ensures
        match r {
            Some((ent, j)) => entry_at(s@, start as int) == Some(
                ((ent.branch@, ent.commit@), j as int),
            ) && start < j <= s@.len(),
            None => entry_at(s@, start as int) is None,
        },
{
    let key = parse_key(s, start);
    match key {
        None => None,
        Some((k, i1)) => {
            let i2 = skip_spaces(s, i1);
            if !(i2 < s.len() && s[i2] == 0x3d) {
                return None;
            }
            let i3 = skip_spaces(s, i2 + 1);
            if !(i3 < s.len() && s[i3] == 0x22) {
                return None;
            }
            match parse_qbody(s, i3 + 1) {
                None => None,
                Some((v, i4)) => {
                    if i4 < s.len() && s[i4] == 0x0a {
                        Some((MemoEntry { branch: k, commit: v }, i4 + 1))
                    } else {
                        None
                    }
                },
            }
        },
    }
}

// ---------------------------------------------------------------------
// The round trip: a memo written out parses back to itself.
// ---------------------------------------------------------------------

pub proof fn lemma_esc_front(x: Seq<u8>)
    requires
        x.len() > 0,
    ensures
        esc(x) == esc_byte(x[0]) + esc(x.subrange(1, x.len() as int)),
    decreases x.len(),
{
    let x1 = x.subrange(1, x.len() as int);
    if x.len() == 1 {
        assert(x.drop_last() =~= Seq::<u8>::empty());
        assert(x1 =~= Seq::<u8>::empty());
        assert(esc(Seq::<u8>::empty()) == Seq::<u8>::empty());
        assert(esc(x) == esc(x.drop_last()) + esc_byte(x.last()));
        assert(Seq::<u8>::empty() + esc_byte(x[0]) =~= esc_byte(x[0]));
        assert(esc_byte(x[0]) + Seq::<u8>::empty() =~= esc_byte(x[0]));
    } else {
        let y = x.drop_last();
        lemma_esc_front(y);
        let y1 = y.subrange(1, y.len() as int);
        assert(x1.drop_last() =~= y1);
        assert(x1.last() == x.last());
        assert(esc(x1) == esc(x1.drop_last()) + esc_byte(x1.last()));
        assert(esc(x) == esc(y) + esc_byte(x.last()));
        assert(esc_byte(x[0]) + (esc(y1) + esc_byte(x.last())) =~= (esc_byte(x[0]) + esc(y1))
            + esc_byte(x.last()));
    }
}

/// What `qbody_at` makes of an escaped text followed by a closing quote.
pub proof fn lemma_qbody_of_quoted(s: Seq<u8>, i: int, x: Seq<u8>)
    requires
        0 <= i,
        text_ok(x),
        i + esc(x).len() + 1 <= s.len(),
        s.subrange(i, i + esc(x).len() + 1) == esc(x) + seq![0x22u8],
    ensures
        qbody_at(s, i) == Some((x, i + esc(x).len() + 1)),
    decreases x.len(),
{
    let m = esc(x).len() as int;
    let q = esc(x) + seq![0x22u8];
    assert(forall|u: int| 0 <= u < m + 1 ==> #[trigger] q[u] == s.subrange(i, i + m + 1)[u]);
    if x.len() == 0 {
        assert(esc(x) == Seq::<u8>::empty());
        assert(q[0] == 0x22);
        assert(s.subrange(i, i + m + 1)[0] == s[i]);
        assert(s[i] == 0x22);
    } else {
        let b = x[0];
        let x1 = x.subrange(1, x.len() as int);
        lemma_esc_front(x);
        assert(text_ok(x1));
        assert(b != 0x0a);
        assert(seq![b] + x1 =~= x);
        if b == 0x22 || b == 0x5c {
            assert(esc_byte(b) == seq![0x5cu8, b]);
            assert(m == 2 + esc(x1).len());
            assert(q[0] == 0x5c);
            assert(q[1] == b);
            assert(s.subrange(i, i + m + 1)[0] == s[i]);
            assert(s.subrange(i, i + m + 1)[1] == s[i + 1]);
            assert(s[i] == 0x5c);
            assert(s[i + 1] == b);
            assert(s.subrange(i + 2, i + 2 + esc(x1).len() + 1) =~= esc(x1) + seq![0x22u8]) by {
                s.lemma_slice_of_slice(i, i + m + 1, 2, m + 1);
            }
            lemma_qbody_of_quoted(s, i + 2, x1);
            assert(qbody_at(s, i) == Some((seq![s[i + 1]] + x1, i + m + 1)));
        } else {
            assert(esc_byte(b) == seq![b]);
            assert(m == 1 + esc(x1).len());
            assert(q[0] == b);
            assert(s.subrange(i, i + m + 1)[0] == s[i]);
            assert(s[i] == b);
            assert(s.subrange(i + 1, i + 1 + esc(x1).len() + 1) =~= esc(x1) + seq![0x22u8]) by {
                s.lemma_slice_of_slice(i, i + m + 1, 1, m + 1);
            }
            lemma_qbody_of_quoted(s, i + 1, x1);
            assert(qbody_at(s, i) == Some((seq![s[i]] + x1, i + m + 1)));
        }
    }
}

/// What `entry_at` makes of one written entry line.
pub proof fn lemma_entry_of_line(s: Seq<u8>, i: int, k: Seq<u8>, v: Seq<u8>)
    requires
        0 <= i,
        text_ok(k),
        text_ok(v),
        i + entry_line(k, v).len() <= s.len(),
        s.subrange(i, i + entry_line(k, v).len()) == entry_line(k, v),
    ensures
        entry_at(s, i) == Some(((k, v), i + entry_line(k, v).len())),
{
    let el = entry_line(k, v);
    let ll = el.len() as int;
    let mk = esc(k).len() as int;
    let mv = esc(v).len() as int;
    assert(ll == mk + 2 + 3 + mv + 2 + 1);
    let p1 = i + mk + 2;
    // the opening quote of the key
    assert(el[0] == 0x22);
    assert(s.subrange(i, i + ll)[0] == s[i]);
    assert(s[i] == 0x22);
    // the quoted key
    assert(s.subrange(i + 1, i + 1 + mk + 1) =~= esc(k) + seq![0x22u8]) by {
        s.lemma_slice_of_slice(i, i + ll, 1, mk + 2);
    }
    lemma_qbody_of_quoted(s, i + 1, k);
    assert(key_at(s, i) == Some((k, p1)));
    // the ` = ` between the quoted strings
    assert(el[mk + 2] == 0x20);
    assert(el[mk + 3] == 0x3d);
    assert(el[mk + 4] == 0x20);
    assert(el[mk + 5] == 0x22);
    assert(s.subrange(i, i + ll)[mk + 2] == s[p1]);
    assert(s.subrange(i, i + ll)[mk + 3] == s[p1 + 1]);
    assert(s.subrange(i, i + ll)[mk + 4] == s[p1 + 2]);
    assert(s.subrange(i, i + ll)[mk + 5] == s[p1 + 3]);
    assert(s[p1] == 0x20 && s[p1 + 1] == 0x3d && s[p1 + 2] == 0x20 && s[p1 + 3] == 0x22);
    assert(spaces_at(s, p1 + 1) == p1 + 1);
    assert(spaces_at(s, p1) == p1 + 1);
    assert(spaces_at(s, p1 + 3) == p1 + 3);
    assert(spaces_at(s, p1 + 2) == p1 + 3);
    // the quoted value
    assert(s.subrange(p1 + 4, p1 + 4 + mv + 1) =~= esc(v) + seq![0x22u8]) by {
        s.lemma_slice_of_slice(i, i + ll, mk + 6, mk + 6 + mv + 1);
    }
    lemma_qbody_of_quoted(s, p1 + 4, v);
    // the newline
    assert(el[ll - 1] == 0x0a);
    assert(s.subrange(i, i + ll)[ll - 1] == s[i + ll - 1]);
    assert(s[i + ll - 1] == 0x0a);
}

/// What `entries_at` makes of the written entries that fill the rest of
/// the document.
pub proof fn lemma_entries_of_doc(e: Seq<(Seq<u8>, Seq<u8>)>, s: Seq<u8>, i: int)
    requires
        0 <= i,
        entries_ok(e),
        s.len() == i + doc_entries(e).len(),
        s.subrange(i, s.len() as int) == doc_entries(e),
    ensures
        entries_at(s, i) == Some(e),
    decreases e.len(),
{
    if e.len() == 0 {
        assert(doc_entries(e) == Seq::<u8>::empty());
        assert(i == s.len());
        assert(entries_at(s, i) == Some(Seq::<(Seq<u8>, Seq<u8>)>::empty()));
        assert(e =~= Seq::<(Seq<u8>, Seq<u8>)>::empty());
    } else {
        let kv = e[0];
        let rest = e.drop_first();
        let el = entry_line(kv.0, kv.1);
        let ll = el.len() as int;
        assert(doc_entries(e) == el + doc_entries(rest));
        assert(text_ok(e[0].0) && text_ok(e[0].1));
        assert(s.subrange(i, i + ll) =~= el) by {
            s.lemma_slice_of_slice(i, s.len() as int, 0, ll);
            assert(s.subrange(i, s.len() as int).subrange(0, ll) =~= el);
        }
        lemma_entry_of_line(s, i, kv.0, kv.1);
        let j = i + ll;
        assert(entries_ok(rest)) by {
            assert(forall|t: int|
                0 <= t < rest.len() ==> rest[t] == #[trigger] e.drop_first()[t] && rest[t] == e[t
                    + 1]);
        }
        assert(s.subrange(j, s.len() as int) =~= doc_entries(rest)) by {
            s.lemma_slice_of_slice(i, s.len() as int, ll, (s.len() - i) as int);
        }
        lemma_entries_of_doc(rest, s, j);
        assert(ll >= 1);
        assert((kv.0, kv.1) == kv);
        assert(entries_at(s, i) == Some(seq![kv] + rest));
        assert(seq![kv] + rest =~= e);
    }
}

/// Law: saving a memo and loading it back yields the same memo, for any
/// mapping whose branch names and commits are unique-keyed and free of
/// newlines, as branch names and commit hashes always are.
pub proof fn lemma_save_load_round_trip(e: Seq<(Seq<u8>, Seq<u8>)>)
    requires
        keys_unique(e),
        entries_ok(e),
    ensures
        parse_memo_spec(serialize_spec(e)) == Some(e),
{
    let s = serialize_spec(e);
    assert(s.len() == 11 + doc_entries(e).len());
    assert(s.subrange(0, 11) =~= header());
    assert(s.subrange(11, s.len() as int) =~= doc_entries(e));
    lemma_entries_of_doc(e, s, 11);
}

} // verus!
