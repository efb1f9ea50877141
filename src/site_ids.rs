//! The persisted table of declaration-site ids.
//!
//! Each site where a discriminant is declared is named by a key
//! `crate:file:line:column` and given a 16-bit id, stable across builds that
//! share the table. The table is a text file of `key = id` lines; ids are
//! handed out in increasing order from one, and new entries are appended.
use vstd::prelude::*;

verus! {

/// Why a site id could not be had.
#[derive(Debug, Clone, Copy, PartialEq, Eq)]
pub enum SiteIdError {
    /// A line of the table holds an id that is not a 16-bit decimal number.
    InvalidId,
    /// Every 16-bit id is taken.
    Exhausted,
    /// A compiler flag that takes a value came last.
    MissingValue,
}

/// ASCII whitespace, as trimmed from keys and ids.
pub open spec fn is_space(b: u8) -> bool {
    b == 9 || b == 10 || b == 11 || b == 12 || b == 13 || b == 32
}

/// `s` without its leading whitespace.
pub open spec fn trim_start(s: Seq<u8>) -> Seq<u8>
    decreases s.len(),
{
    if s.len() > 0 && is_space(s[0]) {
        trim_start(s.drop_first())
    } else {
        s
    }
}

/// `s` without its trailing whitespace.
pub open spec fn trim_end(s: Seq<u8>) -> Seq<u8>
    decreases s.len(),
{
    if s.len() > 0 && is_space(s.last()) {
        trim_end(s.drop_last())
    } else {
        s
    }
}

/// `s` without leading and trailing whitespace.
pub open spec fn trim(s: Seq<u8>) -> Seq<u8> {
    trim_end(trim_start(s))
}

/// Whether every byte of `s` is a decimal digit.
pub open spec fn all_digits(s: Seq<u8>) -> bool {
    forall|i: int| 0 <= i < s.len() ==> 48 <= #[trigger] s[i] <= 57
}

/// The number that the decimal digits `s` spell.
pub open spec fn decimal_value(s: Seq<u8>) -> nat
    decreases s.len(),
{
    if s.len() == 0 {
        0
    } else {
        decimal_value(s.drop_last()) * 10 + (s.last() - 48) as nat
    }
}

/// The digits of `t`, after an optional leading `+`.
pub open spec fn unsigned_digits(t: Seq<u8>) -> Seq<u8> {
    if t.len() > 0 && t[0] == 43 {
        t.drop_first()
    } else {
        t
    }
}

/// The id that the text `s` spells: an optional `+` and one or more decimal
/// digits, with value below 65536, between optional whitespace.
pub open spec fn id_of(s: Seq<u8>) -> Option<u16> {
    let t = unsigned_digits(trim(s));
    if t.len() > 0 && all_digits(t) && decimal_value(t) < 0x10000 {
        Some(decimal_value(t) as u16)
    } else {
        None
    }
}

/// The index of the first `b` in `s`, or `s.len()` where there is none.
pub open spec fn find(s: Seq<u8>, b: u8) -> nat
    decreases s.len(),
{
    if s.len() == 0 {
        0
    } else if s[0] == b {
        0
    } else {
        1 + find(s.drop_first(), b)
    }
}

/// What one line of the table says: `Err` for a malformed id, `Ok(None)`
/// for a line without `=`, else the trimmed key before the first `=` and the
/// id after it.
pub open spec fn line_entry(line: Seq<u8>) -> Result<Option<(Seq<u8>, u16)>, SiteIdError> {
    let i = find(line, 61) as int;
    if i >= line.len() {
        Ok(None)
    } else {
        match id_of(line.subrange(i + 1, line.len() as int)) {
            Some(id) => Ok(Some((trim(line.subrange(0, i)), id))),
            None => Err(SiteIdError::InvalidId),
        }
    }
}

/// The map and the largest id that the lines `lines` give, later lines
/// overriding earlier ones; `Err` where a line holds a malformed id.
pub open spec fn table_of(lines: Seq<Seq<u8>>) -> Result<(Map<Seq<u8>, u16>, u16), SiteIdError>
    decreases lines.len(),
{
    if lines.len() == 0 {
        Ok((Map::empty(), 0u16))
    } else {
        match table_of(lines.drop_last()) {
            Err(e) => Err(e),
            Ok((m, max)) => match line_entry(lines.last()) {
                Err(e) => Err(e),
                Ok(None) => Ok((m, max)),
                Ok(Some((k, id))) => Ok((m.insert(k, id), if id > max { id } else { max })),
            },
        }
    }
}

/// The decimal digits of `n`.
pub open spec fn decimal(n: nat) -> Seq<u8>
    decreases n,
{
    if n < 10 {
        seq![(48 + n) as u8]
    } else {
        decimal(n / 10).push((48 + n % 10) as u8)
    }
}

/// The key of the site at `line` and `column` of `file` in crate `krate`.
pub open spec fn site_key_of(krate: Seq<u8>, file: Seq<u8>, line: nat, column: nat) -> Seq<u8> {
    krate + seq![58u8] + file + seq![58u8] + decimal(line) + seq![58u8] + decimal(column)
}

/// The line `key = id` of the table, with its newline.
pub open spec fn line_of(key: Seq<u8>, id: u16) -> Seq<u8> {
    key + seq![32u8, 61u8, 32u8] + decimal(id as nat) + seq![10u8]
}

/// The text of the table whose entries are `entries`, in order.
pub open spec fn text_of(entries: Seq<(Seq<u8>, u16)>) -> Seq<u8>
    decreases entries.len(),
{
    if entries.len() == 0 {
        Seq::empty()
    } else {
        text_of(entries.drop_last()) + line_of(entries.last().0, entries.last().1)
    }
}

/// Whether the byte at `i` of `s` is whitespace.
fn space_at(s: &[u8], i: usize) -> (r: bool)
    requires
        i < s@.len(),
    ensures
        r == is_space(s@[i as int]),
{
    let b = s[i];
    b == 9 || b == 10 || b == 11 || b == 12 || b == 13 || b == 32
}

proof fn lemma_trim_start_skip(s: Seq<u8>, i: int)
    requires
        0 <= i <= s.len(),
        forall|j: int| 0 <= j < i ==> is_space(#[trigger] s[j]),
    ensures
        trim_start(s) == trim_start(s.subrange(i, s.len() as int)),
    decreases i,
{
    if i > 0 {
        assert(s.drop_first() =~= s.subrange(1, s.len() as int));
        lemma_trim_start_skip(s.drop_first(), i - 1);
        assert(s.drop_first().subrange(i - 1, s.drop_first().len() as int) =~= s.subrange(
            i,
            s.len() as int,
        ));
    } else {
        assert(s.subrange(0, s.len() as int) =~= s);
    }
}

proof fn lemma_trim_end_skip(s: Seq<u8>, e: int)
    requires
        0 <= e <= s.len(),
        forall|j: int| e <= j < s.len() ==> is_space(#[trigger] s[j]),
    ensures
        trim_end(s) == trim_end(s.subrange(0, e)),
    decreases s.len() - e,
{
    if e < s.len() {
        lemma_trim_end_skip(s.drop_last(), e);
        assert(s.drop_last().subrange(0, e) =~= s.subrange(0, e));
    } else {
        assert(s.subrange(0, e) =~= s);
    }
}

/// The id that `s[start..end]` spells, as [`id_of`] says.
fn parse_id(s: &[u8], start: usize, end: usize) -> (r: Option<u16>)
    requires
        start <= end <= s@.len(),
    ensures
        r == id_of(s@.subrange(start as int, end as int)),
{
    let ghost whole = s@.subrange(start as int, end as int);
    let b = trim_bounds_in(s, start, end);
    let (i0, e) = b;
    let i = if i0 < e && s[i0] == 43 {
        i0 + 1
    } else {
        i0
    };
    let ghost t = s@.subrange(i as int, e as int);
    proof {
        let tt = s@.subrange(i0 as int, e as int);
        if i0 < e && s@[i0 as int] == 43 {
            assert(tt[0] == s@[i0 as int]);
            assert(tt.drop_first() =~= t);
        } else {
            if tt.len() > 0 {
                assert(tt[0] == s@[i0 as int]);
            }
            assert(tt =~= t);
        }
    }
    if i == e {
        return None;
    }
    let mut v: u32 = 0;
    let mut j: usize = i;
    while j < e
        invariant
            i <= j <= e <= s@.len(),
            t == s@.subrange(i as int, e as int),
            whole == s@.subrange(start as int, end as int),
            unsigned_digits(trim(whole)) == t,
            all_digits(s@.subrange(i as int, j as int)),
            v == decimal_value(s@.subrange(i as int, j as int)),
            v < 0x10000,
        decreases e - j,
    {
        let c = s[j];
        if c < 48 || c > 57 {
            proof {
                assert(t[j - i] == s@[j as int]);
                assert(!all_digits(t));
                assert(unsigned_digits(trim(whole)) == t);
            }
            return None;
        }
        let ghost prev = s@.subrange(i as int, j as int);
        let ghost next = s@.subrange(i as int, j + 1);
        proof {
            assert(next.drop_last() =~= prev);
            assert(next.last() == c);
        }
        let w: u32 = v * 10 + (c - 48) as u32;
        if w >= 0x10000 {
            proof {
                assert(unsigned_digits(trim(whole)) == t);
                if all_digits(t) {
                    lemma_decimal_grows(t, (j + 1 - i) as int);
                    assert(t.subrange(0, (j + 1 - i) as int) =~= next);
                }
            }
            return None;
        }
        v = w;
        j = j + 1;
    }
    proof {
        assert(s@.subrange(i as int, e as int) =~= t);
    }
    Some(v as u16)
}

proof fn lemma_decimal_grows(t: Seq<u8>, n: int)
    requires
        0 <= n <= t.len(),
        all_digits(t),
    ensures
        decimal_value(t.subrange(0, n)) <= decimal_value(t),
    decreases t.len() - n,
{
    if n < t.len() {
        lemma_decimal_grows(t, n + 1);
        assert(t.subrange(0, n + 1).drop_last() =~= t.subrange(0, n));
        assert(48 <= t[n] <= 57);
    } else {
        assert(t.subrange(0, n) =~= t);
    }
}

/// The bounds of `s[start..end]` without leading and trailing whitespace.
fn trim_bounds_in(s: &[u8], start: usize, end: usize) -> (r: (usize, usize))
    requires
        start <= end <= s@.len(),
    ensures
        start <= r.0 <= r.1 <= end,
        s@.subrange(r.0 as int, r.1 as int) == trim(s@.subrange(start as int, end as int)),
{
    let ghost w = s@.subrange(start as int, end as int);
    let mut i: usize = start;
    while i < end && space_at(s, i)
        invariant
            start <= i <= end <= s@.len(),
            forall|j: int| start <= j < i ==> is_space(#[trigger] s@[j]),
        decreases end - i,
    {
        i = i + 1;
    }
    let ghost rest = s@.subrange(i as int, end as int);
    proof {
        assert forall|j: int| 0 <= j < i - start implies is_space(#[trigger] w[j]) by {
            assert(w[j] == s@[start + j]);
        }
        lemma_trim_start_skip(w, i - start);
        assert(w.subrange(i - start, w.len() as int) =~= rest);
        if rest.len() > 0 {
            assert(rest[0] == s@[i as int]);
        }
        assert(trim_start(rest) == rest);
    }
    let mut e: usize = end;
    while e > i && space_at(s, e - 1)
        invariant
            i <= e <= end <= s@.len(),
            forall|j: int| e <= j < end ==> is_space(#[trigger] s@[j]),
        decreases e,
    {
        e = e - 1;
    }
    proof {
        assert forall|j: int| (e - i) <= j < rest.len() implies is_space(#[trigger] rest[j]) by {
            assert(rest[j] == s@[i + j]);
        }
        lemma_trim_end_skip(rest, e - i);
        let kept = rest.subrange(0, e - i);
        assert(kept =~= s@.subrange(i as int, e as int));
        if kept.len() > 0 {
            assert(kept.last() == s@[e - 1]);
        }
        assert(trim_end(kept) == kept);
    }
    (i, e)
}

/// The bytes `s[start..end]`.
fn copy_range(s: &[u8], start: usize, end: usize) -> (r: Vec<u8>)
    requires
        start <= end <= s@.len(),
    ensures
        r@ == s@.subrange(start as int, end as int),
{
    let mut r: Vec<u8> = Vec::new();
    let mut j: usize = start;
    while j < end
        invariant
            start <= j <= end <= s@.len(),
            r@ == s@.subrange(start as int, j as int),
        decreases end - j,
    {
        r.push(s[j]);
        proof {
            assert(r@ =~= s@.subrange(start as int, j + 1));
        }
        j = j + 1;
    }
    r
}

proof fn lemma_find_at(s: Seq<u8>, b: u8, i: int)
    requires
        0 <= i <= s.len(),
        forall|j: int| 0 <= j < i ==> #[trigger] s[j] != b,
        i < s.len() ==> s[i] == b,
    ensures
        find(s, b) == i,
    decreases i,
{
    if i > 0 {
        lemma_find_at(s.drop_first(), b, i - 1);
    }
}

/// What the line `line` of the table says, as [`line_entry`] states.
pub fn parse_line(line: &[u8]) -> (r: Result<Option<(Vec<u8>, u16)>, SiteIdError>)
    ensures
        match (r, line_entry(line@)) {
            (Ok(None), Ok(None)) => true,
            (Ok(Some((k, id))), Ok(Some((sk, sid)))) => k@ == sk && id == sid,
            (Err(e), Err(se)) => e == se,
            _ => false,
        },
{
    let mut i: usize = 0;
    while i < line.len() && line[i] != 61
        invariant
            i <= line@.len(),
            forall|j: int| 0 <= j < i ==> #[trigger] line@[j] != 61,
        decreases line@.len() - i,
    {
        i = i + 1;
    }
    proof {
        lemma_find_at(line@, 61, i as int);
    }
    if i >= line.len() {
        return Ok(None);
    }
    match parse_id(line, i + 1, line.len()) {
        Some(id) => {
            let (ks, ke) = trim_bounds_in(line, 0, i);
            Ok(Some((copy_range(line, ks, ke), id)))
        },
        None => Err(SiteIdError::InvalidId),
    }
}

/// The table of site ids: distinct keys, each with its id, and the largest
/// id seen.
pub struct SiteTable {
    entries: Vec<(Vec<u8>, u16)>,
    max_id: u16,
}

/// The map that the entries `e` give, later entries overriding earlier ones.
pub open spec fn map_of(e: Seq<(Seq<u8>, u16)>) -> Map<Seq<u8>, u16>
    decreases e.len(),
{
    if e.len() == 0 {
        Map::empty()
    } else {
        map_of(e.drop_last()).insert(e.last().0, e.last().1)
    }
}

/// No id in `m` exceeds `max`.
pub open spec fn ids_within(m: Map<Seq<u8>, u16>, max: u16) -> bool {
    forall|k: Seq<u8>| #[trigger] m.contains_key(k) ==> m[k] <= max
}

/// No two of the entries `e` have the same key.
pub open spec fn distinct_keys(e: Seq<(Seq<u8>, u16)>) -> bool {
    forall|i: int, j: int| 0 <= i < j < e.len() ==> #[trigger] e[i].0 != #[trigger] e[j].0
}

proof fn lemma_push_entry(e: Seq<(Seq<u8>, u16)>, k: Seq<u8>, id: u16, max: u16, new_max: u16)
    requires
        forall|j: int| 0 <= j < e.len() ==> (#[trigger] e[j]).0 != k,
        distinct_keys(e),
        ids_within(map_of(e), max),
        max <= new_max,
        id <= new_max,
    ensures
        distinct_keys(e.push((k, id))),
        ids_within(map_of(e.push((k, id))), new_max),
        map_of(e.push((k, id))) == map_of(e).insert(k, id),
{
    let f = e.push((k, id));
    assert(f.drop_last() =~= e);
    assert forall|a: int, b: int| 0 <= a < b < f.len() implies #[trigger] f[a].0 != #[trigger] f[b].0 by {
        if b < e.len() {
            assert(f[a] == e[a] && f[b] == e[b]);
        } else {
            assert(f[a] == e[a]);
        }
    }
}

impl SiteTable {
    /// The entries, in the order of the file.
    pub closed spec fn entries(&self) -> Seq<(Seq<u8>, u16)> {
        self.entries@.map_values(|p: (Vec<u8>, u16)| (p.0@, p.1))
    }

    /// The id of each key.
    pub open spec fn ids(&self) -> Map<Seq<u8>, u16> {
        map_of(self.entries())
    }

    /// The largest id seen, zero for an empty table.
    pub closed spec fn max_id(&self) -> u16 {
        self.max_id
    }

    /// No id exceeds the largest seen, and keys are distinct.
    pub open spec fn wf(&self) -> bool {
        &&& ids_within(self.ids(), self.max_id())
        &&& distinct_keys(self.entries())
    }

    /// An empty table.
    pub fn new() -> (r: SiteTable)
        ensures
            r.wf(),
            r.ids() == Map::<Seq<u8>, u16>::empty(),
            r.max_id() == 0,
    {
        let r = SiteTable { entries: Vec::new(), max_id: 0 };
        proof {
            assert(r.entries() =~= Seq::<(Seq<u8>, u16)>::empty());
        }
        r
    }

    /// The table read from the lines `lines` of its file, later lines
    /// overriding earlier ones; `Err(InvalidId)` where a line holds a
    /// malformed id.
    pub fn from_lines(lines: &Vec<Vec<u8>>) -> (r: Result<SiteTable, SiteIdError>)
        ensures
            match (r, table_of(lines@.map_values(|l: Vec<u8>| l@))) {
                (Ok(t), Ok((m, max))) => t.wf() && t.ids() == m && t.max_id() == max,
                (Err(e), Err(se)) => e == se,
                _ => false,
            },
    {
        let ghost ls = lines@.map_values(|l: Vec<u8>| l@);
        let mut t = SiteTable::new();
        let mut n: usize = 0;
        while n < lines.len()
            invariant
                n <= lines@.len(),
                ls == lines@.map_values(|l: Vec<u8>| l@),
                t.wf(),
                table_of(ls.subrange(0, n as int)) == Ok::<_, SiteIdError>((t.ids(), t.max_id())),
            decreases lines@.len() - n,
        {
            let ghost before = ls.subrange(0, n as int);
            let ghost after = ls.subrange(0, n + 1);
            proof {
                assert(after.drop_last() =~= before);
                assert(after.last() == lines@[n as int]@);
            }
            match parse_line(lines[n].as_slice()) {
                Ok(None) => {},
                Ok(Some((k, id))) => {
                    t.put(k, id);
                },
                Err(e) => {
                    proof {
                        lemma_table_err_sticks(ls, n as int + 1);
                        lemma_err_extends(ls, n as int + 1);
                    }
                    return Err(e);
                },
            }
            n = n + 1;
        }
        proof {
            assert(ls.subrange(0, n as int) =~= ls);
        }
        Ok(t)
    }

    /// Sets the id of `k` to `id`, keeping its place where it is present.
    fn put(&mut self, k: Vec<u8>, id: u16)
        requires
            old(self).wf(),
        ensures
            final(self).wf(),
            final(self).ids() == old(self).ids().insert(k@, id),
            final(self).max_id() == if id > old(self).max_id() {
                id
            } else {
                old(self).max_id()
            },
    {
        let ghost old_entries = self.entries();
        let ghost kk = k@;
        let ghost new_max: u16 = if id > self.max_id { id } else { self.max_id };
        let mut i: usize = 0;
        while i < self.entries.len()
            invariant
                i <= self.entries@.len(),
                self.entries() == old_entries,
                old(self).entries() == old_entries,
                self.max_id == old(self).max_id(),
                new_max == (if id > old(self).max_id() { id } else { old(self).max_id() }),
                kk == k@,
                distinct_keys(old_entries),
                ids_within(map_of(old_entries), old(self).max_id()),
                forall|j: int| 0 <= j < i ==> (#[trigger] old_entries[j]).0 != kk,
            decreases self.entries@.len() - i,
        {
            proof {
                assert(old_entries[i as int].0 == self.entries@[i as int].0@);
            }
            if bytes_equal(self.entries[i].0.as_slice(), k.as_slice()) {
                proof {
                    assert(old_entries[i as int].0 == kk);
                    lemma_update_entry(old_entries, i as int, id, old(self).max_id(), new_max);
                }
                self.entries.set(i, (k, id));
                proof {
                    assert(self.entries() =~= old_entries.update(i as int, (kk, id)));
                    assert(self.ids() == map_of(old_entries).insert(kk, id));
                }
                if id > self.max_id {
                    self.max_id = id;
                }
                return;
            }
            i = i + 1;
        }
        proof {
            lemma_push_entry(old_entries, kk, id, old(self).max_id(), new_max);
        }
        self.entries.push((k, id));
        proof {
            assert(self.entries() =~= old_entries.push((kk, id)));
        }
        if id > self.max_id {
            self.max_id = id;
        }
    }

    /// The id of `key`: the one recorded, else the next after the largest
    /// seen, which is then recorded; `Err(Exhausted)` where the largest seen
    /// is 65535. The second result says whether the id is new.
    pub fn assign(&mut self, key: Vec<u8>) -> (r: Result<(u16, bool), SiteIdError>)
        requires
            old(self).wf(),
        ensures
            final(self).wf(),
            old(self).ids().contains_key(key@) ==> r == Ok::<_, SiteIdError>(
                (old(self).ids()[key@], false),
            ) && final(self).ids() == old(self).ids() && final(self).entries() == old(
                self,
            ).entries(),
            !old(self).ids().contains_key(key@) && old(self).max_id() == 0xFFFF ==> r == Err::<
                (u16, bool),
                _,
            >(SiteIdError::Exhausted) && final(self).entries() == old(self).entries(),
            !old(self).ids().contains_key(key@) && old(self).max_id() < 0xFFFF ==> r == Ok::<
                _,
                SiteIdError,
            >(((old(self).max_id() + 1) as u16, true)) && final(self).entries() == old(
                self,
            ).entries().push((key@, (old(self).max_id() + 1) as u16)) && final(self).ids() == old(
                self,
            ).ids().insert(key@, (old(self).max_id() + 1) as u16) && final(self).max_id() == (old(
                self,
            ).max_id() + 1) as u16,
    {
        let mut i: usize = 0;
        while i < self.entries.len()
            invariant
                i <= self.entries@.len(),
                self.wf(),
                forall|j: int| 0 <= j < i ==> (#[trigger] self.entries()[j]).0 != key@,
            decreases self.entries@.len() - i,
        {
            if bytes_equal(self.entries[i].0.as_slice(), key.as_slice()) {
                proof {
                    assert(self.entries()[i as int].0 == self.entries@[i as int].0@);
                    lemma_map_of_at(self.entries(), i as int);
                }
                return Ok((self.entries[i].1, false));
            }
            proof {
                assert(self.entries()[i as int].0 == self.entries@[i as int].0@);
            }
            i = i + 1;
        }
        proof {
            lemma_map_of_absent(self.entries(), key@);
        }
        if self.max_id == 0xFFFF {
            return Err(SiteIdError::Exhausted);
        }
        let id: u16 = self.max_id + 1;
        let ghost old_entries = self.entries();
        let ghost kk = key@;
        proof {
            lemma_push_entry(old_entries, kk, id, self.max_id, id);
        }
        self.entries.push((key, id));
        self.max_id = id;
        proof {
            assert(self.entries() =~= old_entries.push((kk, id)));
        }
        Ok((id, true))
    }

    /// The text of the table: a `key = id` line for each entry, in order.
    pub fn render(&self) -> (r: Vec<u8>)
        ensures
            r@ == text_of(self.entries()),
    {
        let mut out: Vec<u8> = Vec::new();
        let mut i: usize = 0;
        while i < self.entries.len()
            invariant
                i <= self.entries@.len(),
                out@ == text_of(self.entries().subrange(0, i as int)),
            decreases self.entries@.len() - i,
        {
            let ghost before = out@;
            append(&mut out, self.entries[i].0.as_slice());
            out.push(32);
            out.push(61);
            out.push(32);
            append_decimal(&mut out, self.entries[i].1 as u32);
            out.push(10);
            proof {
                let e = self.entries().subrange(0, i + 1);
                assert(e.drop_last() =~= self.entries().subrange(0, i as int));
                assert(e.last() == self.entries()[i as int]);
                assert(self.entries()[i as int].0 == self.entries@[i as int].0@);
                assert(out@ =~= before + line_of(e.last().0, e.last().1));
            }
            i = i + 1;
        }
        proof {
            assert(self.entries().subrange(0, i as int) =~= self.entries());
        }
        out
    }
}

proof fn lemma_table_err_sticks(ls: Seq<Seq<u8>>, n: int)
    requires
        1 <= n <= ls.len(),
        line_entry(ls[n - 1]) is Err,
        table_of(ls.subrange(0, n - 1)) is Ok,
    ensures
        table_of(ls.subrange(0, n)) == Err::<(Map<Seq<u8>, u16>, u16), _>(
            line_entry(ls[n - 1])->Err_0,
        ),
{
    assert(ls.subrange(0, n).drop_last() =~= ls.subrange(0, n - 1));
}

proof fn lemma_err_extends(ls: Seq<Seq<u8>>, n: int)
    requires
        0 <= n <= ls.len(),
        table_of(ls.subrange(0, n)) is Err,
    ensures
        table_of(ls) == table_of(ls.subrange(0, n)),
    decreases ls.len() - n,
{
    if n < ls.len() {
        assert(ls.subrange(0, n + 1).drop_last() =~= ls.subrange(0, n));
        lemma_err_extends(ls, n + 1);
    } else {
        assert(ls.subrange(0, n) =~= ls);
    }
}

proof fn lemma_update_entry(e: Seq<(Seq<u8>, u16)>, i: int, id: u16, max: u16, new_max: u16)
    requires
        0 <= i < e.len(),
        distinct_keys(e),
        ids_within(map_of(e), max),
        max <= new_max,
        id <= new_max,
    ensures
        distinct_keys(e.update(i, (e[i].0, id))),
        ids_within(map_of(e.update(i, (e[i].0, id))), new_max),
        map_of(e.update(i, (e[i].0, id))) == map_of(e).insert(e[i].0, id),
{
    let f = e.update(i, (e[i].0, id));
    lemma_map_of_update(e, i, id);
    assert forall|a: int, b: int| 0 <= a < b < f.len() implies #[trigger] f[a].0 != #[trigger] f[b].0 by {
        assert(f[a].0 == e[a].0 && f[b].0 == e[b].0);
    }
}

proof fn lemma_map_of_update(e: Seq<(Seq<u8>, u16)>, i: int, id: u16)
    requires
        0 <= i < e.len(),
        forall|a: int, b: int| 0 <= a < b < e.len() ==> #[trigger] e[a].0 != #[trigger] e[b].0,
    ensures
        map_of(e.update(i, (e[i].0, id))) == map_of(e).insert(e[i].0, id),
    decreases e.len(),
{
    let u = e.update(i, (e[i].0, id));
    if i == e.len() - 1 {
        assert(u.drop_last() =~= e.drop_last());
        lemma_map_of_absent(e.drop_last(), e[i].0);
        assert(map_of(e).insert(e[i].0, id) =~= map_of(e.drop_last()).insert(e[i].0, id));
    } else {
        lemma_map_of_update(e.drop_last(), i, id);
        assert(u.drop_last() =~= e.drop_last().update(i, (e[i].0, id)));
        assert(e.last().0 != e[i].0);
        assert(map_of(u) =~= map_of(e).insert(e[i].0, id));
    }
}

proof fn lemma_map_of_at(e: Seq<(Seq<u8>, u16)>, i: int)
    requires
        0 <= i < e.len(),
        forall|a: int, b: int| 0 <= a < b < e.len() ==> #[trigger] e[a].0 != #[trigger] e[b].0,
    ensures
        map_of(e).contains_key(e[i].0),
        map_of(e)[e[i].0] == e[i].1,
    decreases e.len(),
{
    if i < e.len() - 1 {
        lemma_map_of_at(e.drop_last(), i);
        assert(e.last().0 != e[i].0);
    }
}

proof fn lemma_map_of_absent(e: Seq<(Seq<u8>, u16)>, k: Seq<u8>)
    requires
        forall|j: int| 0 <= j < e.len() ==> (#[trigger] e[j]).0 != k,
    ensures
        !map_of(e).contains_key(k),
    decreases e.len(),
{
    if e.len() > 0 {
        lemma_map_of_absent(e.drop_last(), k);
        assert(e[e.len() - 1].0 != k);
    }
}

/// Whether `a` and `b` hold the same bytes.
fn bytes_equal(a: &[u8], b: &[u8]) -> (r: bool)
    ensures
        r == (a@ == b@),
{
    if a.len() != b.len() {
        return false;
    }
    let mut i: usize = 0;
    while i < a.len()
        invariant
            a@.len() == b@.len(),
            i <= a@.len(),
            forall|j: int| 0 <= j < i ==> a@[j] == b@[j],
        decreases a@.len() - i,
    {
        if a[i] != b[i] {
            return false;
        }
        i = i + 1;
    }
    proof {
        assert(a@ =~= b@);
    }
    true
}

/// Appends the bytes `s` to `out`.
fn append(out: &mut Vec<u8>, s: &[u8])
    ensures
        final(out)@ == old(out)@ + s@,
{
    let mut i: usize = 0;
    while i < s.len()
        invariant
            i <= s@.len(),
            out@ == old(out)@ + s@.subrange(0, i as int),
        decreases s@.len() - i,
    {
        out.push(s[i]);
        proof {
            assert(out@ =~= old(out)@ + s@.subrange(0, i + 1));
        }
        i = i + 1;
    }
    proof {
        assert(s@.subrange(0, i as int) =~= s@);
    }
}

/// Appends the decimal digits of `n` to `out`.
fn append_decimal(out: &mut Vec<u8>, n: u32)
    ensures
        final(out)@ == old(out)@ + decimal(n as nat),
    decreases n,
{
    if n >= 10 {
        append_decimal(out, n / 10);
        out.push((48 + n % 10) as u8);
        proof {
            assert(decimal(n as nat) == decimal((n / 10) as nat).push((48 + n % 10) as u8));
            assert(final(out)@ =~= old(out)@ + decimal(n as nat));
        }
    } else {
        out.push((48 + n) as u8);
        proof {
            assert(decimal(n as nat) == seq![(48 + n) as u8]);
            assert(final(out)@ =~= old(out)@ + decimal(n as nat));
        }
    }
}

/// The key of the site at `line` and `column` of `file` in crate `krate`:
/// `krate:file:line:column`.
pub fn site_key(krate: &[u8], file: &[u8], line: u32, column: u32) -> (r: Vec<u8>)
    ensures
        r@ == site_key_of(krate@, file@, line as nat, column as nat),
{
    let mut out: Vec<u8> = Vec::new();
    append(&mut out, krate);
    out.push(58);
    append(&mut out, file);
    out.push(58);
    append_decimal(&mut out, line);
    out.push(58);
    append_decimal(&mut out, column);
    proof {
        assert(out@ =~= site_key_of(krate@, file@, line as nat, column as nat));
    }
    out
}

/// The flag that names the compiler's output directory.
pub open spec fn out_dir_flag() -> Seq<u8> {
    seq![45u8, 45, 111, 117, 116, 45, 100, 105, 114]
}

/// The flag that names the crate being compiled.
pub open spec fn crate_name_flag() -> Seq<u8> {
    seq![45u8, 45, 99, 114, 97, 116, 101, 45, 110, 97, 109, 101]
}

/// The prefix of the argument that names the dependency directory.
pub open spec fn dependency_prefix() -> Seq<u8> {
    seq![100u8, 101, 112, 101, 110, 100, 101, 110, 99, 121, 61]
}

/// What the compiler's arguments name: the output directory, the crate and
/// the dependency directory, each where given.
pub struct BuildArgs {
    pub out_dir: Option<Vec<u8>>,
    pub crate_name: Option<Vec<u8>>,
    pub dependency: Option<Vec<u8>>,
}

/// The view of an optional byte string.
pub open spec fn opt_view(o: Option<Vec<u8>>) -> Option<Seq<u8>> {
    match o {
        Some(v) => Some(v@),
        None => None,
    }
}

/// What the arguments from position `i` on name, given what earlier ones
/// named: a flag takes the next argument as its value, and the last of each
/// counts; `Err(MissingValue)` where a flag comes last.
pub open spec fn scan_from(
    args: Seq<Seq<u8>>,
    i: nat,
    out: Option<Seq<u8>>,
    name: Option<Seq<u8>>,
    dep: Option<Seq<u8>>,
) -> Result<(Option<Seq<u8>>, Option<Seq<u8>>, Option<Seq<u8>>), SiteIdError>
    decreases args.len() - i,
{
    if i >= args.len() {
        Ok((out, name, dep))
    } else if args[i as int] == out_dir_flag() || args[i as int] == crate_name_flag() {
        if i + 1 < args.len() {
            if args[i as int] == out_dir_flag() {
                scan_from(args, i + 2, Some(args[i + 1 as int]), name, dep)
            } else {
                scan_from(args, i + 2, out, Some(args[i + 1 as int]), dep)
            }
        } else {
            Err(SiteIdError::MissingValue)
        }
    } else if args[i as int].len() >= 11 && args[i as int].subrange(0, 11) == dependency_prefix() {
        scan_from(
            args,
            i + 1,
            out,
            name,
            Some(args[i as int].subrange(11, args[i as int].len() as int)),
        )
    } else {
        scan_from(args, i + 1, out, name, dep)
    }
}

/// Whether `a` starts with `p`.
fn starts_with(a: &[u8], p: &[u8]) -> (r: bool)
    ensures
        r == (a@.len() >= p@.len() && a@.subrange(0, p@.len() as int) == p@),
{
    if a.len() < p.len() {
        return false;
    }
    let mut i: usize = 0;
    while i < p.len()
        invariant
            p@.len() <= a@.len(),
            i <= p@.len(),
            forall|j: int| 0 <= j < i ==> a@[j] == p@[j],
        decreases p@.len() - i,
    {
        if a[i] != p[i] {
            proof {
                assert(a@.subrange(0, p@.len() as int)[i as int] != p@[i as int]);
            }
            return false;
        }
        i = i + 1;
    }
    proof {
        assert(a@.subrange(0, p@.len() as int) =~= p@);
    }
    true
}

/// What the compiler's arguments `args` name, as [`scan_from`] states from
/// the first argument on.
pub fn scan_args(args: &Vec<Vec<u8>>) -> (r: Result<BuildArgs, SiteIdError>)
    ensures
        match (r, scan_from(args@.map_values(|a: Vec<u8>| a@), 0, None, None, None)) {
            (Ok(b), Ok((out, name, dep))) => opt_view(b.out_dir) == out && opt_view(b.crate_name)
                == name && opt_view(b.dependency) == dep,
            (Err(e), Err(se)) => e == se,
            _ => false,
        },
{
    let ghost av = args@.map_values(|a: Vec<u8>| a@);
    let out_flag: Vec<u8> = vec![45u8, 45, 111, 117, 116, 45, 100, 105, 114];
    let name_flag: Vec<u8> = vec![45u8, 45, 99, 114, 97, 116, 101, 45, 110, 97, 109, 101];
    let dep_prefix: Vec<u8> = vec![100u8, 101, 112, 101, 110, 100, 101, 110, 99, 121, 61];
    proof {
        assert(out_flag@ =~= out_dir_flag());
        assert(name_flag@ =~= crate_name_flag());
        assert(dep_prefix@ =~= dependency_prefix());
    }
    let mut b = BuildArgs { out_dir: None, crate_name: None, dependency: None };
    let mut i: usize = 0;
    while i < args.len()
        invariant
            i <= args@.len(),
            av == args@.map_values(|a: Vec<u8>| a@),
            out_flag@ == out_dir_flag(),
            name_flag@ == crate_name_flag(),
            dep_prefix@ == dependency_prefix(),
            scan_from(av, i as nat, opt_view(b.out_dir), opt_view(b.crate_name), opt_view(
                b.dependency,
            )) == scan_from(av, 0, None, None, None),
        decreases args@.len() - i,
    {
        let a = args[i].as_slice();
        proof {
            assert(av[i as int] == a@);
        }
        let is_out = bytes_equal(a, out_flag.as_slice());
        let is_name = bytes_equal(a, name_flag.as_slice());
        if is_out || is_name {
            if i + 1 >= args.len() {
                return Err(SiteIdError::MissingValue);
            }
            let v = copy_range(args[i + 1].as_slice(), 0, args[i + 1].len());
            proof {
                assert(av[i + 1] == args@[i + 1]@);
                assert(v@ =~= av[i + 1]);
            }
            if is_out {
                b.out_dir = Some(v);
            } else {
                b.crate_name = Some(v);
            }
            i = i + 2;
        } else {
            if starts_with(a, dep_prefix.as_slice()) {
                b.dependency = Some(copy_range(a, 11, a.len()));
            }
            i = i + 1;
        }
    }
    Ok(b)
}

/// The directory that holds the site-id table: the output directory where
/// it is given and exists, else the dependency directory where it is given
/// and exists, else `target/debug/deps`.
pub fn choose_out_dir(
    out_dir: Option<Vec<u8>>,
    out_dir_exists: bool,
    dependency: Option<Vec<u8>>,
    dependency_exists: bool,
) -> (r: Vec<u8>)
    ensures
        out_dir.is_some() && out_dir_exists ==> r@ == out_dir.unwrap()@,
        !(out_dir.is_some() && out_dir_exists) && dependency.is_some() && dependency_exists ==> r@
            == dependency.unwrap()@,
        !(out_dir.is_some() && out_dir_exists) && !(dependency.is_some() && dependency_exists)
            ==> r@ == seq![116u8, 97, 114, 103, 101, 116, 47, 100, 101, 98, 117, 103, 47, 100, 101, 112, 115],
{
    match out_dir {
        Some(d) if out_dir_exists => d,
        _ => match dependency {
            Some(d) if dependency_exists => d,
            _ => {
                let r: Vec<u8> = vec![116u8, 97, 114, 103, 101, 116, 47, 100, 101, 98, 117, 103, 47, 100, 101, 112, 115];
                proof {
                    assert(r@ =~= seq![116u8, 97, 114, 103, 101, 116, 47, 100, 101, 98, 117, 103, 47, 100, 101, 112, 115]);
                }
                r
            },
        },
    }
}

/// The crate's name: the one the arguments give where it is nonempty and
/// does not start with `-`, else the one the environment gives; `None` where
/// neither does, for the caller to read it off the directory layout.
pub fn choose_crate_name(from_args: Option<Vec<u8>>, from_env: Option<Vec<u8>>) -> (r: Option<
    Vec<u8>,
>)
    ensures
        from_args matches Some(a) && a@.len() > 0 && a@[0] != 45 ==> r == from_args,
        !(from_args matches Some(a) && a@.len() > 0 && a@[0] != 45) ==> r == from_env,
{
    match from_args {
        Some(a) => {
            if a.len() > 0 && a[0] != 45 {
                Some(a)
            } else {
                from_env
            }
        },
        None => from_env,
    }
}

} // verus!
