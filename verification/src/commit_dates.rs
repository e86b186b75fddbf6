//! The record of the last commit dates: one line `repo,date,usable` per
//! downloaded repository, the last line of a repository counting.
use vstd::prelude::*;
use crate::lookup::{position, Lookup};
use crate::text::{
    append_str, chars_of, find_in, lemma_find_from_first, lemma_lines_append, lemma_lines_one,
    lemma_split_char_none, lemma_split_char_prefix, lines, split_char, string_of,
};

verus! {

/// One record: a repository, the date of its last commit as written, and
/// whether it is Move that the analysis can run on.
#[derive(Debug, Clone, PartialEq, Eq)]
pub struct UpdateDate {
    pub repo: String,
    pub last_update: String,
    pub usable: bool,
}

pub struct UpdateDateView {
    pub repo: Seq<char>,
    pub last_update: Seq<char>,
    pub usable: bool,
}

impl View for UpdateDate {
    type V = UpdateDateView;

    open spec fn view(&self) -> UpdateDateView {
        UpdateDateView { repo: self.repo@, last_update: self.last_update@, usable: self.usable }
    }
}

pub open spec fn bool_text(b: bool) -> Seq<char> {
    if b {
        "true"@
    } else {
        "false"@
    }
}

/// The line that records `repo`, `date` and `usable`.
pub open spec fn record_line(repo: Seq<char>, date: Seq<char>, usable: bool) -> Seq<char> {
    repo + ","@ + date + ","@ + bool_text(usable) + "\n"@
}

/// The line to append to the record for `repo`, `date` and `usable`.
pub fn commit_date_line(repo: &str, date: &str, usable: bool) -> (r: String)
    ensures
        r@ == record_line(repo@, date@, usable),
{
    let mut s = String::new();
    append_str(&mut s, repo);
    append_str(&mut s, ",");
    append_str(&mut s, date);
    append_str(&mut s, ",");
    if usable {
        append_str(&mut s, "true");
    } else {
        append_str(&mut s, "false");
    }
    append_str(&mut s, "\n");
    assert(s@ =~= record_line(repo@, date@, usable));
    s
}

/// The record on a line: its first three comma-separated fields, the third
/// read as `true` only where it is exactly `true`; `None` for a line with
/// fewer than three fields.
pub open spec fn record_of_line(line: Seq<char>) -> Option<UpdateDateView> {
    let fields = split_char(line, ',');
    if fields.len() >= 3 {
        Some(
            UpdateDateView {
                repo: fields[0],
                last_update: fields[1],
                usable: fields[2] == "true"@,
            },
        )
    } else {
        None
    }
}

/// The split of `s` at its first comma, as ranges of `cs[lo..hi]`.
fn field_end(cs: &[char], lo: usize, hi: usize, comma: &[char]) -> (r: Option<usize>)
    requires
        lo <= hi <= cs@.len(),
        comma@ == seq![','],
    ensures
        r matches Some(i) ==> lo <= i < hi && split_char(cs@.subrange(lo as int, hi as int), ',')
            == seq![cs@.subrange(lo as int, i as int)] + split_char(
            cs@.subrange(i + 1, hi as int),
            ',',
        ),
        r is None ==> split_char(cs@.subrange(lo as int, hi as int), ',') == seq![
            cs@.subrange(lo as int, hi as int),
        ],
{
    let ghost s = cs@.subrange(lo as int, hi as int);
    let r = find_in(cs, lo, hi, comma);
    proof {
        lemma_find_from_first(s, seq![','], 0);
        if let Some(i) = r {
            assert(s.take(i - lo) =~= cs@.subrange(lo as int, i as int));
            assert(s.skip(i - lo + 1) =~= cs@.subrange(i + 1, hi as int));
        }
    }
    r
}

/// The record on `line`, if it has three fields.
pub fn try_parse_update_date_line(line: &str) -> (r: Option<UpdateDate>)
    ensures
        r matches Some(d) ==> record_of_line(line@) == Some(d@),
        r is None ==> record_of_line(line@) is None,
{
    let cs = chars_of(line);
    let n = cs.len();
    let comma = chars_of(",");
    proof {
        reveal_strlit(",");
        assert(comma@ =~= seq![',']);
        assert(cs@.subrange(0, n as int) =~= cs@);
    }
    let i1 = match field_end(&cs, 0, n, &comma) {
        Some(i) => i,
        None => {
            return None;
        },
    };
    let i2 = match field_end(&cs, i1 + 1, n, &comma) {
        Some(i) => i,
        None => {
            return None;
        },
    };
    let i3 = match field_end(&cs, i2 + 1, n, &comma) {
        Some(i) => i,
        None => n,
    };
    proof {
        let f = split_char(cs@, ',');
        assert(f[0] == cs@.subrange(0, i1 as int));
        assert(f[1] == cs@.subrange(i1 + 1, i2 as int));
        assert(f[2] == cs@.subrange(i2 + 1, i3 as int));
    }
    let repo = string_of(&cs, 0, i1);
    let last_update = string_of(&cs, i1 + 1, i2);
    let third = string_of(&cs, i2 + 1, i3);
    let usable = crate::text::same_text(third.as_str(), "true");
    Some(UpdateDate { repo, last_update, usable })
}

/// The record on `line`.
pub fn parse_update_date_line(line: &str) -> (r: UpdateDate)
    requires
        record_of_line(line@) is Some,
    ensures
        record_of_line(line@) == Some(r@),
{
    match try_parse_update_date_line(line) {
        Some(d) => d,
        None => {
            assert(false);
            UpdateDate { repo: String::new(), last_update: String::new(), usable: false }
        },
    }
}

/// The records `s` as a map, a later record of a repository replacing an
/// earlier one.
pub open spec fn records_map(s: Seq<UpdateDateView>) -> Map<Seq<char>, (Seq<char>, bool)>
    decreases s.len(),
{
    if s.len() == 0 {
        Map::empty()
    } else {
        records_map(s.drop_last()).insert(s.last().repo, (s.last().last_update, s.last().usable))
    }
}

pub open spec fn repos_distinct(s: Seq<UpdateDateView>) -> bool {
    forall|i: int, j: int| 0 <= i < j < s.len() ==> s[i].repo != s[j].repo
}

/// For distinct repositories, the map holds exactly their records.
pub proof fn lemma_records_map_distinct(s: Seq<UpdateDateView>)
    requires
        repos_distinct(s),
    ensures
        forall|k: Seq<char>|
            records_map(s).contains_key(k) <==> exists|i: int| 0 <= i < s.len() && s[i].repo == k,
        forall|i: int|
            0 <= i < s.len() ==> records_map(s)[#[trigger] s[i].repo] == (
                s[i].last_update,
                s[i].usable,
            ),
    decreases s.len(),
{
    if s.len() > 0 {
        let t = s.drop_last();
        lemma_records_map_distinct(t);
        assert forall|k: Seq<char>|
            records_map(s).contains_key(k) <==> exists|i: int| 0 <= i < s.len() && s[i].repo == k by {
            if records_map(s).contains_key(k) {
                if k == s.last().repo {
                    assert(s[s.len() - 1].repo == k);
                } else {
                    assert(records_map(t).contains_key(k));
                    let i = choose|i: int| 0 <= i < t.len() && t[i].repo == k;
                    assert(t[i] == s[i]);
                    assert(s[i].repo == k);
                }
            }
            if exists|i: int| 0 <= i < s.len() && s[i].repo == k {
                let i = choose|i: int| 0 <= i < s.len() && s[i].repo == k;
                if i < s.len() - 1 {
                    assert(t[i] == s[i]);
                    assert(t[i].repo == k);
                    assert(records_map(t).contains_key(k));
                }
            }
        }
        assert forall|i: int| 0 <= i < s.len() implies records_map(s)[#[trigger] s[i].repo] == (
            s[i].last_update,
            s[i].usable,
        ) by {
            if i < s.len() - 1 {
                assert(t[i] == s[i]);
            }
        }
    }
}

/// The records of the repositories, at most one per repository.
pub struct UpdateDates {
    entries: Vec<UpdateDate>,
}

impl UpdateDates {
    pub closed spec fn records(self) -> Seq<UpdateDateView> {
        self.entries@.map_values(|e: UpdateDate| e@)
    }

    #[verifier::type_invariant]
    closed spec fn one_per_repo(self) -> bool {
        repos_distinct(self.records())
    }

    /// No records.
    pub fn new() -> (r: UpdateDates)
        ensures
            r@ == Map::<Seq<char>, (Seq<char>, bool)>::empty(),
    {
        let r = UpdateDates { entries: Vec::new() };
        assert(r.records() =~= Seq::<UpdateDateView>::empty());
        r
    }

    /// The number of repositories with a record.
    pub fn len(&self) -> (r: usize)
        ensures
            r == self@.len(),
    {
        proof {
            use_type_invariant(self);
            self.lemma_dom_len();
        }
        self.entries.len()
    }

    proof fn lemma_dom_len(self)
        requires
            repos_distinct(self.records()),
        ensures
            self@.len() == self.entries@.len(),
            self@.dom().finite(),
    {
        let s = self.records();
        lemma_records_map_distinct(s);
        lemma_distinct_keys_len(s);
    }

    /// The record of `repo`, if it has one.
    pub fn get(&self, repo: &str) -> (r: Option<&UpdateDate>)
        ensures
            r is None <==> !self@.contains_key(repo@),
            r matches Some(d) ==> d.repo@ == repo@ && self@[repo@] == (d.last_update@, d.usable),
    {
        proof {
            use_type_invariant(self);
            lemma_records_map_distinct(self.records());
        }
        match position(&self.entries, repo) {
            Some(i) => {
                proof {
                    assert(self.records()[i as int] == self.entries@[i as int]@);
                    assert(self.records()[i as int].repo == repo@);
                }
                Some(&self.entries[i])
            },
            None => {
                proof {
                    if self@.contains_key(repo@) {
                        let k = choose|k: int|
                            0 <= k < self.records().len() && self.records()[k].repo == repo@;
                        assert(self.records()[k] == self.entries@[k]@);
                    }
                }
                None
            },
        }
    }

    /// Records `d`, replacing the record of its repository, if any.
    pub fn insert(&mut self, d: UpdateDate)
        ensures
            final(self)@ == old(self)@.insert(d.repo@, (d.last_update@, d.usable)),
    {
        proof {
            use_type_invariant(&*self);
        }
        let ghost old_records = self.records();
        let ghost dv = d@;
        let found = position(&self.entries, d.repo.as_str());
        let mut entries = Vec::new();
        std::mem::swap(&mut entries, &mut self.entries);
        match found {
            Some(i) => {
                entries.set(i, d);
                proof {
                    let s = entries@.map_values(|e: UpdateDate| e@);
                    assert(old_records[i as int] == old(self).entries@[i as int]@);
                    assert(s =~= old_records.update(i as int, dv));
                    lemma_records_map_update(old_records, i as int, dv);
                }
            },
            None => {
                entries.push(d);
                proof {
                    let s = entries@.map_values(|e: UpdateDate| e@);
                    assert(s =~= old_records.push(dv));
                    assert(s.drop_last() =~= old_records);
                    assert forall|a: int, b: int| 0 <= a < b < s.len() implies s[a].repo
                        != s[b].repo by {
                        if b == s.len() - 1 {
                            assert(old(self).entries@[a]@ == old_records[a]);
                        } else {
                            assert(old_records[a].repo != old_records[b].repo);
                        }
                    }
                }
            },
        }
        self.entries = entries;
    }
}

/// A record is picked out by its repository.
impl<'a> Lookup<&'a str> for UpdateDate {
    open spec fn found_by(&self, q: &'a str) -> bool {
        self.repo@ == q@
    }

    fn is_found_by(&self, q: &'a str) -> (r: bool) {
        crate::text::same_text(self.repo.as_str(), q)
    }
}

impl View for UpdateDates {
    type V = Map<Seq<char>, (Seq<char>, bool)>;

    closed spec fn view(&self) -> Map<Seq<char>, (Seq<char>, bool)> {
        records_map(self.records())
    }
}

/// The map of distinct records has one key per record.
proof fn lemma_distinct_keys_len(s: Seq<UpdateDateView>)
    requires
        repos_distinct(s),
    ensures
        records_map(s).dom().finite(),
        records_map(s).len() == s.len(),
    decreases s.len(),
{
    if s.len() > 0 {
        let t = s.drop_last();
        lemma_distinct_keys_len(t);
        lemma_records_map_distinct(t);
        assert(!records_map(t).contains_key(s.last().repo)) by {
            if records_map(t).contains_key(s.last().repo) {
                let i = choose|i: int| 0 <= i < t.len() && t[i].repo == s.last().repo;
                assert(s[i].repo == s[s.len() - 1].repo);
            }
        }
    }
}

/// Replacing the record of a repository replaces its value in the map.
proof fn lemma_records_map_update(s: Seq<UpdateDateView>, i: int, d: UpdateDateView)
    requires
        repos_distinct(s),
        0 <= i < s.len(),
        s[i].repo == d.repo,
    ensures
        repos_distinct(s.update(i, d)),
        records_map(s.update(i, d)) == records_map(s).insert(d.repo, (d.last_update, d.usable)),
{
    let u = s.update(i, d);
    assert(repos_distinct(u)) by {
        assert forall|a: int, b: int| 0 <= a < b < u.len() implies u[a].repo != u[b].repo by {
            assert(s[a].repo != s[b].repo);
        }
    }
    lemma_records_map_distinct(s);
    lemma_records_map_distinct(u);
    let m1 = records_map(u);
    let m2 = records_map(s).insert(d.repo, (d.last_update, d.usable));
    assert forall|k: Seq<char>| m1.contains_key(k) <==> m2.contains_key(k) by {
        if m1.contains_key(k) {
            let j = choose|j: int| 0 <= j < u.len() && u[j].repo == k;
            if j != i {
                assert(u[j] == s[j]);
                assert(s[j].repo == k);
            }
        }
        if m2.contains_key(k) {
            if k == d.repo {
                assert(u[i].repo == k);
            } else {
                let j = choose|j: int| 0 <= j < s.len() && s[j].repo == k;
                assert(u[j] == s[j]);
                assert(u[j].repo == k);
            }
        }
    }
    assert forall|k: Seq<char>| m1.contains_key(k) implies m1[k] == m2[k] by {
        let j = choose|j: int| 0 <= j < u.len() && u[j].repo == k;
        assert(m1[u[j].repo] == (u[j].last_update, u[j].usable));
        if j != i {
            assert(u[j] == s[j]);
            assert(m2[k] == records_map(s)[s[j].repo]);
        }
    }
    assert(m1 =~= m2);
}

/// The records of `lines` in order, each replacing any earlier record of its
/// repository; `None` where a line has fewer than three fields.
pub open spec fn records_of_lines(lines: Seq<Seq<char>>) -> Option<Map<Seq<char>, (Seq<char>, bool)>>
    decreases lines.len(),
{
    if lines.len() == 0 {
        Some(Map::empty())
    } else {
        match (records_of_lines(lines.drop_last()), record_of_line(lines.last())) {
            (Some(m), Some(d)) => Some(m.insert(d.repo, (d.last_update, d.usable))),
            _ => None,
        }
    }
}

/// The records that the lines of the record file hold; `None` where a line
/// has fewer than three fields.
pub fn try_update_dates_from_lines(lines: &Vec<String>) -> (r: Option<UpdateDates>)
    ensures
        r matches Some(d) ==> records_of_lines(lines@.map_values(|l: String| l@)) == Some(d@),
        r is None ==> records_of_lines(lines@.map_values(|l: String| l@)) is None,
{
    let ghost ls = lines@.map_values(|l: String| l@);
    let mut dates = UpdateDates::new();
    let mut i: usize = 0;
    while i < lines.len()
        invariant
            i <= lines@.len(),
            ls == lines@.map_values(|l: String| l@),
            records_of_lines(ls.take(i as int)) == Some(dates@),
        decreases lines.len() - i,
    {
        proof {
            assert(ls.take(i + 1).drop_last() =~= ls.take(i as int));
            assert(ls.take(i + 1).last() == lines@[i as int]@);
        }
        match try_parse_update_date_line(lines[i].as_str()) {
            Some(d) => {
                dates.insert(d);
            },
            None => {
                proof {
                    lemma_records_stopped(ls.take(i + 1), ls.skip(i + 1));
                    assert(ls.take(i + 1) + ls.skip(i + 1) =~= ls);
                }
                return None;
            },
        }
        i = i + 1;
    }
    assert(ls.take(i as int) =~= ls);
    Some(dates)
}

/// The records that the lines of the record file hold.
pub fn update_dates_from_lines(lines: &Vec<String>) -> (r: UpdateDates)
    requires
        records_of_lines(lines@.map_values(|l: String| l@)) is Some,
    ensures
        records_of_lines(lines@.map_values(|l: String| l@)) == Some(r@),
{
    match try_update_dates_from_lines(lines) {
        Some(d) => d,
        None => {
            assert(false);
            UpdateDates::new()
        },
    }
}

proof fn lemma_records_stopped(done: Seq<Seq<char>>, rest: Seq<Seq<char>>)
    requires
        records_of_lines(done) is None,
    ensures
        records_of_lines(done + rest) is None,
    decreases rest.len(),
{
    if rest.len() > 0 {
        lemma_records_stopped(done, rest.drop_last());
        assert((done + rest).drop_last() =~= done + rest.drop_last());
    }
}

/// Text that a field of a record can hold: no comma and no line break.
pub open spec fn is_field_text(s: Seq<char>) -> bool {
    forall|j: int| 0 <= j < s.len() ==> s[j] != ',' && s[j] != '\n'
}

/// A line appended to the record file for a repository is read back as that
/// repository's record: where the file is empty or ends its last line, and
/// its lines are all records, reading the file after the append gives the
/// records read before, with `repo`'s replaced by `date` and `usable`.
pub proof fn lemma_appended_record_is_read_back(
    file: Seq<char>,
    repo: Seq<char>,
    date: Seq<char>,
    usable: bool,
)
    requires
        file.len() == 0 || file.last() == '\n',
        is_field_text(repo),
        is_field_text(date),
        records_of_lines(lines(file)) is Some,
    ensures
        records_of_lines(lines(file + record_line(repo, date, usable))) == Some(
            records_of_lines(lines(file))->0.insert(repo, (date, usable)),
        ),
        records_of_lines(lines(file + record_line(repo, date, usable)))->0[repo] == (date, usable),
{
    reveal_strlit("true");
    reveal_strlit("false");
    reveal_strlit(",");
    reveal_strlit("\n");
    let t = bool_text(usable);
    let tail = date + seq![','] + t;
    let x = repo + seq![','] + tail;
    assert(record_line(repo, date, usable) =~= x + seq!['\n']);
    assert forall|j: int| 0 <= j < t.len() implies t[j] != ',' && t[j] != '\n' by {
        if usable {
            assert(t == seq!['t', 'r', 'u', 'e']);
        } else {
            assert(t == seq!['f', 'a', 'l', 's', 'e']);
        }
    }
    assert forall|j: int| 0 <= j < x.len() implies x[j] != '\n' by {
        if j < repo.len() {
            assert(x[j] == repo[j]);
        } else if j > repo.len() && j < repo.len() + 1 + date.len() {
            assert(x[j] == date[j - repo.len() - 1]);
        } else if j >= repo.len() + 2 + date.len() {
            assert(x[j] == t[j - repo.len() - 2 - date.len()]);
        }
    }
    assert(x.last() == t.last());
    lemma_lines_one(x);
    lemma_lines_append(file, x + seq!['\n']);
    let ls = lines(file + record_line(repo, date, usable));
    assert(ls =~= lines(file) + seq![x]);
    assert(ls.drop_last() =~= lines(file));
    lemma_split_char_prefix(repo, tail, ',');
    lemma_split_char_prefix(date, t, ',');
    lemma_split_char_none(t, ',');
    let fields = split_char(x, ',');
    assert(fields =~= seq![repo, date, t]);
    if !usable {
        assert(t.len() != "true"@.len());
    }
    assert(record_of_line(x) == Some(UpdateDateView { repo, last_update: date, usable }));
}

/// A recorded value is what the last insertion of its repository wrote, and
/// an insertion leaves the other repositories' records as they were.
pub proof fn lemma_insert_then_get(
    m: Map<Seq<char>, (Seq<char>, bool)>,
    repo: Seq<char>,
    value: (Seq<char>, bool),
    other: Seq<char>,
)
    ensures
        m.insert(repo, value).contains_key(repo),
        m.insert(repo, value)[repo] == value,
        other != repo ==> (m.insert(repo, value).contains_key(other) == m.contains_key(other)),
        other != repo && m.contains_key(other) ==> m.insert(repo, value)[other] == m[other],
{
}

} // verus!
