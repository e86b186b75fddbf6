//! A line-oriented scan of Move source code for its module and struct
//! declarations.
use vstd::prelude::*;
use crate::text::{
    find, before, chars_of, ends_with, ends_with_range, find_in, lemma_find_char_at, lemma_find_from_first, lines, second_word,
    second_word_range, split_once, starts_with, starts_with_range, string_of, trim, trim_range,
};

verus! {

/// The primitive Move types for which a default value can be written.
pub enum MovePrimitiveType {
    Integer,
    Bool,
    Address,
}

/// The Move source text of the default value of each primitive type.
pub open spec fn primitive_default(t: MovePrimitiveType) -> Seq<char> {
    match t {
        MovePrimitiveType::Integer => "0"@,
        MovePrimitiveType::Bool => "true"@,
        MovePrimitiveType::Address => "@0xCAFE"@,
    }
}

impl MovePrimitiveType {
    /// The Move source text of this type's default value.
    pub fn default(&self) -> (r: &str)
        ensures
            r@ == primitive_default(*self),
    {
        match *self {
            MovePrimitiveType::Integer => "0",
            MovePrimitiveType::Bool => "true",
            MovePrimitiveType::Address => "@0xCAFE",
        }
    }
}

/// A field of a struct: its name and its type as written.
#[derive(Debug, PartialEq, Eq, Hash)]
pub struct MoveField {
    pub name: String,
    pub _type: String,
}

/// A struct: its name, the lines of its first and last line and its fields.
#[derive(Debug, PartialEq, Eq, Hash)]
pub struct MoveStruct {
    pub name: String,
    /// (start, finish), as line indices counted from 0.
    pub declaration_span: (usize, usize),
    pub fields: Vec<MoveField>,
}

/// A module declaration: `module <address>::<name>` on line `declaration_line`.
#[derive(Debug, PartialEq, Eq, Hash)]
pub struct MoveModule {
    pub address: String,
    pub name: String,
    pub declaration_line: usize,
}

/// The module and struct declarations of one source file, each in the order
/// in which the scan completed it; no declaration occurs twice.
#[derive(Debug, PartialEq, Eq, Default)]
pub struct MoveSourceMetadata {
    pub modules: Vec<MoveModule>,
    pub structs: Vec<MoveStruct>,
}

pub struct FieldView {
    pub name: Seq<char>,
    pub ty: Seq<char>,
}

pub struct StructView {
    pub name: Seq<char>,
    pub declaration_span: (usize, usize),
    pub fields: Seq<FieldView>,
}

pub struct ModuleView {
    pub address: Seq<char>,
    pub name: Seq<char>,
    pub declaration_line: usize,
}

pub struct MetadataView {
    pub modules: Seq<ModuleView>,
    pub structs: Seq<StructView>,
}

impl View for MoveField {
    type V = FieldView;

    open spec fn view(&self) -> FieldView {
        FieldView { name: self.name@, ty: self._type@ }
    }
}

impl View for MoveStruct {
    type V = StructView;

    open spec fn view(&self) -> StructView {
        StructView {
            name: self.name@,
            declaration_span: self.declaration_span,
            fields: self.fields@.map_values(|f: MoveField| f@),
        }
    }
}

impl View for MoveModule {
    type V = ModuleView;

    open spec fn view(&self) -> ModuleView {
        ModuleView {
            address: self.address@,
            name: self.name@,
            declaration_line: self.declaration_line,
        }
    }
}

impl View for MoveSourceMetadata {
    type V = MetadataView;

    open spec fn view(&self) -> MetadataView {
        MetadataView {
            modules: self.modules@.map_values(|m: MoveModule| m@),
            structs: self.structs@.map_values(|s: MoveStruct| s@),
        }
    }
}

// ---------------------------------------------------------------------------
// The scan, line by line
// ---------------------------------------------------------------------------
/// What the scan knows after some lines: the declarations completed so far,
/// the struct being read (its name and first line) and its fields so far.
pub struct ScanState {
    pub modules: Seq<ModuleView>,
    pub structs: Seq<StructView>,
    pub current: Option<(Seq<char>, usize)>,
    pub fields: Seq<FieldView>,
}

pub open spec fn initial_scan() -> ScanState {
    ScanState { modules: seq![], structs: seq![], current: None, fields: seq![] }
}

/// The name of a struct from the word that follows `struct`: what precedes
/// its type parameters.
pub open spec fn struct_name(word: Seq<char>) -> Seq<char> {
    before(word, "<"@)
}

/// The type of a field from what follows the `:`, trimmed and without a
/// final comma.
pub open spec fn field_type(rest: Seq<char>) -> Seq<char> {
    let t = trim(rest);
    if ends_with(t, ","@) {
        t.drop_last()
    } else {
        t
    }
}

/// A line that ends a struct: the struct being read, if any, is complete.
pub open spec fn close_struct(st: ScanState, idx: usize) -> ScanState {
    match st.current {
        Some((name, start)) => ScanState {
            structs: st.structs.push(
                StructView { name: name, declaration_span: (start, idx), fields: st.fields },
            ),
            current: None,
            fields: seq![],
            ..st
        },
        None => ScanState { current: None, fields: seq![], ..st },
    }
}

/// The scan of line `idx`; `None` where the scan cannot read the line:
/// a `module` line without a second word holding `::`, a `struct` line
/// without a second word, or a field line without `:`.
pub open spec fn scan_line(st: ScanState, idx: usize, line: Seq<char>) -> Option<ScanState> {
    let t = trim(line);
    if starts_with(t, "module"@) {
        match second_word(t) {
            Some(w) => match split_once(w, "::"@) {
                Some((address, name)) => Some(
                    ScanState {
                        modules: st.modules.push(
                            ModuleView { address: address, name: name, declaration_line: idx },
                        ),
                        ..st
                    },
                ),
                None => None,
            },
            None => None,
        }
    } else if starts_with(t, "struct"@) || ends_with(t, "}"@) {
        let opened = if starts_with(t, "struct"@) {
            match second_word(t) {
                Some(w) => Some(
                    ScanState { current: Some((struct_name(w), idx)), fields: seq![], ..st },
                ),
                None => None,
            }
        } else {
            Some(st)
        };
        match opened {
            Some(o) => if ends_with(t, "}"@) {
                Some(close_struct(o, idx))
            } else {
                Some(o)
            },
            None => None,
        }
    } else if t.len() > 0 && !starts_with(t, "//"@) && st.current is Some {
        match split_once(t, ":"@) {
            Some((name, rest)) => Some(
                ScanState {
                    fields: st.fields.push(FieldView { name: trim(name), ty: field_type(rest) }),
                    ..st
                },
            ),
            None => None,
        }
    } else {
        Some(st)
    }
}

/// A field line of the struct being read records a field named by what
/// precedes its first `:`, trimmed, and typed by what follows it, trimmed,
/// less one final `,` only: a comma inside the type (between the arguments
/// of a generic type) stays.
pub proof fn lemma_field_line(st: ScanState, idx: usize, line: Seq<char>, k: int)
    requires
        st.current is Some,
        trim(line).len() > 0,
        !starts_with(trim(line), "module"@),
        !starts_with(trim(line), "struct"@),
        !ends_with(trim(line), "}"@),
        !starts_with(trim(line), "//"@),
        0 <= k < trim(line).len(),
        trim(line)[k] == ':',
        forall|j: int| 0 <= j < k ==> trim(line)[j] != ':',
    ensures
        scan_line(st, idx, line) matches Some(s) && {
            let t = trim(line);
            let ty = trim(t.skip(k + 1));
            &&& s.modules == st.modules
            &&& s.structs == st.structs
            &&& s.current == st.current
            &&& s.fields.len() == st.fields.len() + 1
            &&& s.fields.drop_last() == st.fields
            &&& s.fields.last().name == trim(t.take(k))
            &&& (if ty.len() > 0 && ty.last() == ',' {
                s.fields.last().ty == ty.drop_last()
            } else {
                s.fields.last().ty == ty
            })
        },
{
    let t = trim(line);
    reveal_strlit(":");
    reveal_strlit(",");
    assert(":"@ =~= seq![':']);
    lemma_find_char_at(t, ':', k);
    let ty = trim(t.skip(k + 1));
    if ty.len() > 0 {
        assert(ends_with(ty, ","@) <==> ty.last() == ',') by {
            assert(","@ =~= seq![',']);
            let last = ty.subrange(ty.len() - 1, ty.len() as int);
            assert(last =~= seq![ty.last()]);
            if ty.last() == ',' {
                assert(last =~= ","@);
            }
            if ends_with(ty, ","@) {
                assert(last[0] == seq![','][0]);
            }
        }
    }
    let s = scan_line(st, idx, line)->0;
    assert(s.fields.drop_last() =~= st.fields);
}

/// The scan of the lines `ls`, the first one being line 0.
pub open spec fn scan_lines(ls: Seq<Seq<char>>) -> Option<ScanState>
    decreases ls.len(),
{
    if ls.len() == 0 {
        Some(initial_scan())
    } else {
        match scan_lines(ls.drop_last()) {
            Some(st) => scan_line(st, (ls.len() - 1) as usize, ls.last()),
            None => None,
        }
    }
}

/// The metadata of `code`: an error when a struct is still open at the end,
/// `None` where the scan cannot read a line.
pub open spec fn parse_source(code: Seq<char>) -> Option<Result<MetadataView, Seq<char>>> {
    match scan_lines(lines(code)) {
        Some(st) => if st.current is Some {
            Some(Err("Unterminated struct definition"@))
        } else {
            Some(Ok(MetadataView { modules: st.modules, structs: st.structs }))
        },
        None => None,
    }
}

/// Whether every line of `code` can be read by the scan.
pub open spec fn source_is_scannable(code: Seq<char>) -> bool {
    parse_source(code) is Some
}

pub open spec fn outcome_view(r: Result<MoveSourceMetadata, String>) -> Result<MetadataView, Seq<char>> {
    match r {
        Ok(m) => Ok(m@),
        Err(e) => Err(e@),
    }
}

// ---------------------------------------------------------------------------
// What every scan keeps
// ---------------------------------------------------------------------------
/// `m` is what the `module` line `line` declares.
pub open spec fn declares_module(line: Seq<char>, m: ModuleView) -> bool {
    let t = trim(line);
    &&& starts_with(t, "module"@)
    &&& second_word(t) matches Some(w) && split_once(w, "::"@) == Some((m.address, m.name))
}

/// `s` spans the lines of `ls` from a `struct` line that names it to a line
/// that ends with `}`.
pub open spec fn struct_on_lines(ls: Seq<Seq<char>>, s: StructView) -> bool {
    let (start, end) = s.declaration_span;
    &&& start <= end < ls.len()
    &&& starts_with(trim(ls[start as int]), "struct"@)
    &&& second_word(trim(ls[start as int])) matches Some(w) && struct_name(w) == s.name
    &&& ends_with(trim(ls[end as int]), "}"@)
}

/// The numbers of the lines of `ls` that start with `module`, in order.
pub open spec fn module_lines(ls: Seq<Seq<char>>) -> Seq<usize>
    decreases ls.len(),
{
    if ls.len() == 0 {
        seq![]
    } else if starts_with(trim(ls.last()), "module"@) {
        module_lines(ls.drop_last()).push((ls.len() - 1) as usize)
    } else {
        module_lines(ls.drop_last())
    }
}

pub open spec fn module_line_numbers(ms: Seq<ModuleView>) -> Seq<usize> {
    ms.map_values(|m: ModuleView| m.declaration_line)
}

/// What holds of the scan of the lines `ls` at every step.
pub open spec fn scan_invariant(ls: Seq<Seq<char>>, st: ScanState) -> bool {
    &&& module_line_numbers(st.modules) == module_lines(ls)
    &&& forall|k: int|
        0 <= k < st.modules.len() ==> (#[trigger] st.modules[k]).declaration_line < ls.len()
            && declares_module(ls[st.modules[k].declaration_line as int], st.modules[k])
    &&& forall|k: int| 0 <= k < st.structs.len() ==> struct_on_lines(ls, #[trigger] st.structs[k])
    &&& forall|k: int, l: int|
        0 <= k < l < st.structs.len() ==> (#[trigger] st.structs[k]).declaration_span.1 < (
        #[trigger] st.structs[l]).declaration_span.0
    &&& (st.current matches Some((name, start)) ==> {
        &&& start < ls.len()
        &&& starts_with(trim(ls[start as int]), "struct"@)
        &&& second_word(trim(ls[start as int])) matches Some(w) && struct_name(w) == name
        &&& forall|k: int|
            0 <= k < st.structs.len() ==> (#[trigger] st.structs[k]).declaration_span.1 < start
    })
}

proof fn lemma_scan_line_keeps(ls: Seq<Seq<char>>, st: ScanState, line: Seq<char>)
    requires
        ls.len() < usize::MAX,
        scan_invariant(ls, st),
        scan_line(st, ls.len() as usize, line) is Some,
    ensures
        scan_invariant(ls.push(line), scan_line(st, ls.len() as usize, line).unwrap()),
{
    let idx = ls.len() as usize;
    let lp = ls.push(line);
    let t = trim(line);
    let st2 = scan_line(st, idx, line).unwrap();
    assert(lp.drop_last() =~= ls);
    assert(lp.last() == line);
    assert(lp[idx as int] == line);
    assert forall|i: int| 0 <= i < ls.len() implies lp[i] == ls[i] by {}
    if starts_with(t, "module"@) {
        let m = st2.modules.last();
        assert(module_line_numbers(st2.modules) =~= module_line_numbers(st.modules).push(idx));
        assert forall|k: int| 0 <= k < st2.modules.len() implies (#[trigger] st2.modules[k]).declaration_line
            < lp.len() && declares_module(lp[st2.modules[k].declaration_line as int], st2.modules[k]) by {
            if k < st.modules.len() {
                assert(st2.modules[k] == st.modules[k]);
            }
        }
    } else {
        assert(module_lines(lp) == module_lines(ls));
        assert(st2.modules == st.modules);
        assert forall|k: int| 0 <= k < st2.modules.len() implies (#[trigger] st2.modules[k]).declaration_line
            < lp.len() && declares_module(lp[st2.modules[k].declaration_line as int], st2.modules[k]) by {
            assert(st.modules[k].declaration_line < ls.len());
        }
        if starts_with(t, "struct"@) || ends_with(t, "}"@) {
            let opened = if starts_with(t, "struct"@) {
                ScanState { current: Some((struct_name(second_word(t).unwrap()), idx)), fields: seq![], ..st }
            } else {
                st
            };
            assert forall|k: int| 0 <= k < opened.structs.len() implies struct_on_lines(lp, #[trigger] opened.structs[k]) by {
                assert(struct_on_lines(ls, st.structs[k]));
            }
            if ends_with(t, "}"@) {
                assert(st2 == close_struct(opened, idx));
                match opened.current {
                    Some((name, start)) => {
                        let ns = StructView { name: name, declaration_span: (start, idx), fields: opened.fields };
                        assert(st2.structs == opened.structs.push(ns));
                        assert(struct_on_lines(lp, ns));
                        assert forall|k: int| 0 <= k < st2.structs.len() implies struct_on_lines(lp, #[trigger] st2.structs[k]) by {
                            if k < opened.structs.len() {
                                assert(st2.structs[k] == opened.structs[k]);
                            }
                        }
                        assert forall|k: int, l: int| 0 <= k < l < st2.structs.len() implies (#[trigger] st2.structs[k]).declaration_span.1 < (
                            #[trigger] st2.structs[l]).declaration_span.0 by {
                            assert(st2.structs[k] == opened.structs[k]);
                            if l < opened.structs.len() {
                                assert(st2.structs[l] == opened.structs[l]);
                            }
                        }
                    },
                    None => {},
                }
            } else {
                assert(st2 == opened);
            }
        } else {
            assert forall|k: int| 0 <= k < st2.structs.len() implies struct_on_lines(lp, #[trigger] st2.structs[k]) by {
                assert(struct_on_lines(ls, st.structs[k]));
            }
        }
    }
}

/// Every scan keeps `scan_invariant`.
proof fn lemma_scan_lines_keeps(ls: Seq<Seq<char>>)
    requires
        ls.len() <= usize::MAX,
    ensures
        scan_lines(ls) matches Some(st) ==> scan_invariant(ls, st),
    decreases ls.len(),
{
    if ls.len() == 0 {
        assert(module_line_numbers(initial_scan().modules) =~= seq![]);
    } else {
        let t = ls.drop_last();
        lemma_scan_lines_keeps(t);
        assert(t.push(ls.last()) =~= ls);
        if let Some(st) = scan_lines(t) {
            if scan_line(st, (ls.len() - 1) as usize, ls.last()) is Some {
                lemma_scan_line_keeps(t, st, ls.last());
            }
        }
    }
}

/// Each line yields at most one line of `lines`.
proof fn lemma_lines_len(s: Seq<char>)
    ensures
        lines(s).len() <= s.len(),
    decreases s.len(),
{
    if s.len() > 0 {
        lemma_find_from_first(s, seq!['\n'], 0);
        if let Some(i) = find(s, seq!['\n']) {
            lemma_lines_len(s.skip(i + 1));
        }
    }
}

/// The modules that a scan of `code` finds are exactly its lines that start
/// with `module`, in order, each declaring `<address>::<name>` as its second
/// word; hence no module occurs twice.
pub proof fn lemma_modules_are_module_lines(code: Seq<char>)
    requires
        code.len() < usize::MAX,
        parse_source(code) matches Some(Ok(_)),
    ensures
        parse_source(code) matches Some(Ok(meta)) && {
            let ls = lines(code);
            &&& module_line_numbers(meta.modules) == module_lines(ls)
            &&& forall|k: int|
                0 <= k < meta.modules.len() ==> (#[trigger] meta.modules[k]).declaration_line
                    < ls.len() && declares_module(ls[meta.modules[k].declaration_line as int], meta.modules[k])
        },
{
    lemma_lines_len(code);
    lemma_scan_lines_keeps(lines(code));
}

/// The structs that a scan of `code` finds each run from a `struct` line
/// naming it to a line ending with `}`, and follow one another without
/// overlapping; hence no struct occurs twice.
pub proof fn lemma_structs_are_ordered_spans(code: Seq<char>)
    requires
        code.len() < usize::MAX,
        parse_source(code) matches Some(Ok(_)),
    ensures
        parse_source(code) matches Some(Ok(meta)) && {
            let ls = lines(code);
            &&& forall|k: int| 0 <= k < meta.structs.len() ==> struct_on_lines(ls, #[trigger] meta.structs[k])
            &&& forall|k: int, l: int|
                0 <= k < l < meta.structs.len() ==> (#[trigger] meta.structs[k]).declaration_span.1
                    < (#[trigger] meta.structs[l]).declaration_span.0
        },
{
    lemma_lines_len(code);
    lemma_scan_lines_keeps(lines(code));
}

/// The lines that start with `module` come in increasing order.
proof fn lemma_module_lines_increasing(ls: Seq<Seq<char>>)
    requires
        ls.len() <= usize::MAX,
    ensures
        forall|i: int| 0 <= i < module_lines(ls).len() ==> module_lines(ls)[i] < ls.len(),
        forall|i: int, j: int|
            0 <= i < j < module_lines(ls).len() ==> module_lines(ls)[i] < module_lines(ls)[j],
    decreases ls.len(),
{
    if ls.len() > 0 {
        let t = ls.drop_last();
        lemma_module_lines_increasing(t);
        let m0 = module_lines(t);
        let m = module_lines(ls);
        if starts_with(trim(ls.last()), "module"@) {
            assert(m == m0.push((ls.len() - 1) as usize));
            assert forall|i: int| 0 <= i < m.len() implies m[i] < ls.len() by {
                if i < m0.len() {
                    assert(m[i] == m0[i]);
                }
            }
            assert forall|i: int, j: int| 0 <= i < j < m.len() implies m[i] < m[j] by {
                assert(m[i] == m0[i]);
                if j < m0.len() {
                    assert(m[j] == m0[j]);
                }
            }
        } else {
            assert(m == m0);
        }
    }
}

/// No declaration occurs twice in what the scan of a source finds: the
/// modules are on distinct lines, and the structs on disjoint spans.
pub proof fn lemma_no_declaration_twice(code: Seq<char>)
    requires
        code.len() < usize::MAX,
        parse_source(code) matches Some(Ok(_)),
    ensures
        parse_source(code) matches Some(Ok(meta)) && meta.modules.no_duplicates()
            && meta.structs.no_duplicates(),
{
    lemma_modules_are_module_lines(code);
    lemma_structs_are_ordered_spans(code);
    lemma_lines_len(code);
    let ls = lines(code);
    lemma_module_lines_increasing(ls);
    let meta = parse_source(code)->0->Ok_0;
    let ms = meta.modules;
    assert forall|i: int, j: int| 0 <= i < ms.len() && 0 <= j < ms.len() && i != j implies ms[i]
        != ms[j] by {
        assert(module_line_numbers(ms)[i] == ms[i].declaration_line);
        assert(module_line_numbers(ms)[j] == ms[j].declaration_line);
        if i < j {
            assert(module_lines(ls)[i] < module_lines(ls)[j]);
        } else {
            assert(module_lines(ls)[j] < module_lines(ls)[i]);
        }
    }
    let ss = meta.structs;
    assert forall|i: int, j: int| 0 <= i < ss.len() && 0 <= j < ss.len() && i != j implies ss[i]
        != ss[j] by {
        assert(struct_on_lines(ls, ss[i]));
        assert(struct_on_lines(ls, ss[j]));
        if i < j {
            assert(ss[i].declaration_span.1 < ss[j].declaration_span.0);
        } else {
            assert(ss[j].declaration_span.1 < ss[i].declaration_span.0);
        }
    }
}

/// Lines that trim to the same texts are scanned alike.
proof fn lemma_scan_lines_trimmed(ls1: Seq<Seq<char>>, ls2: Seq<Seq<char>>)
    requires
        ls1.len() == ls2.len(),
        forall|i: int| 0 <= i < ls1.len() ==> trim(#[trigger] ls1[i]) == trim(ls2[i]),
    ensures
        scan_lines(ls1) == scan_lines(ls2),
    decreases ls1.len(),
{
    if ls1.len() > 0 {
        let a = ls1.drop_last();
        let b = ls2.drop_last();
        assert forall|i: int| 0 <= i < a.len() implies trim(#[trigger] a[i]) == trim(b[i]) by {
            assert(a[i] == ls1[i] && b[i] == ls2[i]);
        }
        lemma_scan_lines_trimmed(a, b);
        assert(trim(ls1.last()) == trim(ls2.last()));
    }
}

/// Whitespace around the lines of a source never changes what the scan
/// finds: two sources with as many lines, each line trimming to the same
/// text as the other's, have the same metadata (or are both unreadable).
pub proof fn lemma_parse_ignores_line_whitespace(code1: Seq<char>, code2: Seq<char>)
    requires
        lines(code1).len() == lines(code2).len(),
        forall|i: int|
            0 <= i < lines(code1).len() ==> trim(#[trigger] lines(code1)[i]) == trim(
                lines(code2)[i],
            ),
    ensures
        parse_source(code1) == parse_source(code2),
{
    lemma_scan_lines_trimmed(lines(code1), lines(code2));
}

/// The executable state of the scan.
struct Scanner {
    modules: Vec<MoveModule>,
    structs: Vec<MoveStruct>,
    current: Option<(String, usize)>,
    fields: Vec<MoveField>,
}

impl View for Scanner {
    type V = ScanState;

    closed spec fn view(&self) -> ScanState {
        ScanState {
            modules: self.modules@.map_values(|m: MoveModule| m@),
            structs: self.structs@.map_values(|s: MoveStruct| s@),
            current: match self.current {
                Some((n, i)) => Some((n@, i)),
                None => None,
            },
            fields: self.fields@.map_values(|f: MoveField| f@),
        }
    }
}

impl Scanner {
    fn new() -> (r: Scanner)
        ensures
            r@ == initial_scan(),
    {
        let r = Scanner {
            modules: Vec::new(),
            structs: Vec::new(),
            current: None,
            fields: Vec::new(),
        };
        assert(r@.modules =~= seq![]);
        assert(r@.structs =~= seq![]);
        assert(r@.fields =~= seq![]);
        r
    }

    fn close(&mut self, idx: usize)
        ensures
            final(self)@ == close_struct(old(self)@, idx),
    {
        let cur = self.current.take();
        let mut fields: Vec<MoveField> = Vec::new();
        std::mem::swap(&mut fields, &mut self.fields);
        assert(self@.fields =~= seq![]);
        match cur {
            Some((name, start)) => {
                let ghost old_structs = self@.structs;
                let s = MoveStruct { name, declaration_span: (start, idx), fields };
                self.structs.push(s);
                assert(self@.structs =~= old_structs.push(s@));
            },
            None => {},
        }
    }

    /// The scan of the line `cs[lo..hi]`, line number `idx`; false where the
    /// scan cannot read it.
    #[verifier::spinoff_prover]
    fn scan(&mut self, cs: &[char], lo: usize, hi: usize, idx: usize) -> (ok: bool)
        requires
            lo <= hi <= cs@.len(),
        ensures
            ok == scan_line(old(self)@, idx, cs@.subrange(lo as int, hi as int)) is Some,
            ok ==> scan_line(old(self)@, idx, cs@.subrange(lo as int, hi as int)) == Some(
                final(self)@,
            ),
    {
        let ghost line = cs@.subrange(lo as int, hi as int);
        proof {
            reveal_strlit("::");
            reveal_strlit(":");
            reveal_strlit(",");
        }
        let (a, b) = trim_range(cs, lo, hi);
        let ghost t = cs@.subrange(a as int, b as int);
        let kw_module = chars_of("module");
        let kw_struct = chars_of("struct");
        let close_brace = chars_of("}");
        if starts_with_range(cs, a, b, &kw_module) {
            match second_word_range(cs, a, b) {
                None => false,
                Some((wa, wb)) => {
                    let sep = chars_of("::");
                    match find_in(cs, wa, wb, &sep) {
                        None => {
                            proof {
                                assert(split_once(cs@.subrange(wa as int, wb as int), "::"@)
                                    is None);
                            }
                            false
                        },
                        Some(i) => {
                            let ghost w = cs@.subrange(wa as int, wb as int);
                            let address = string_of(cs, wa, i);
                            let name = string_of(cs, i + 2, wb);
                            proof {
                                assert(w.take(i - wa) =~= address@);
                                assert(w.skip(i - wa + 2) =~= name@);
                            }
                            let ghost old_modules = self@.modules;
                            let m = MoveModule { address, name, declaration_line: idx };
                            self.modules.push(m);
                            assert(self@.modules =~= old_modules.push(m@));
                            true
                        },
                    }
                },
            }
        } else if starts_with_range(cs, a, b, &kw_struct) || ends_with_range(
            cs,
            a,
            b,
            &close_brace,
        ) {
            if starts_with_range(cs, a, b, &kw_struct) {
                match second_word_range(cs, a, b) {
                    None => {
                        return false;
                    },
                    Some((wa, wb)) => {
                        let lt = chars_of("<");
                        let end = match find_in(cs, wa, wb, &lt) {
                            Some(i) => i,
                            None => wb,
                        };
                        let name = string_of(cs, wa, end);
                        proof {
                            reveal_strlit("<");
                            let w = cs@.subrange(wa as int, wb as int);
                            assert(second_word(t) == Some(w));
                            if end < wb {
                                assert(find(w, "<"@) == Some(end - wa));
                                assert(w.take(end - wa) =~= name@);
                                assert(before(w, "<"@) == w.take(end - wa));
                            } else {
                                assert(find(w, "<"@) is None);
                                assert(w =~= name@);
                            }
                            assert(struct_name(w) == name@);
                        }
                        self.current = Some((name, idx));
                        self.fields = Vec::new();
                        assert(self@.fields =~= seq![]);
                    },
                }
            }
            let ghost opened = self@;
            if ends_with_range(cs, a, b, &close_brace) {
                self.close(idx);
                assert(self@ == close_struct(opened, idx));
            } else {
                assert(self@ == opened);
            }
            assert(scan_line(old(self)@, idx, line) == Some(self@));
            true
        } else {
            let comment = chars_of("//");
            if a < b && !starts_with_range(cs, a, b, &comment) && self.current.is_some() {
                let colon = chars_of(":");
                match find_in(cs, a, b, &colon) {
                    None => false,
                    Some(i) => {
                        let (na, nb) = trim_range(cs, a, i);
                        let (ta, tb) = trim_range(cs, i + 1, b);
                        let comma = chars_of(",");
                        let tb2 = if ends_with_range(cs, ta, tb, &comma) {
                            tb - 1
                        } else {
                            tb
                        };
                        let fname = string_of(cs, na, nb);
                        let ftype = string_of(cs, ta, tb2);
                        proof {
                            assert(t.take(i - a) =~= cs@.subrange(a as int, i as int));
                            assert(t.skip(i - a + 1) =~= cs@.subrange(i + 1, b as int));
                            let tt = cs@.subrange(ta as int, tb as int);
                            if tb2 < tb {
                                assert(tt.drop_last() =~= ftype@);
                            }
                        }
                        let ghost old_fields = self@.fields;
                        let f = MoveField { name: fname, _type: ftype };
                        self.fields.push(f);
                        assert(self@.fields =~= old_fields.push(f@));
                        true
                    },
                }
            } else {
                true
            }
        }
    }
}

/// A scan that stopped stays stopped.
proof fn lemma_scan_stopped(done: Seq<Seq<char>>, rest: Seq<Seq<char>>)
    requires
        scan_lines(done) is None,
    ensures
        scan_lines(done + rest) is None,
    decreases rest.len(),
{
    if rest.len() > 0 {
        let longer = done + rest.drop_last();
        lemma_scan_stopped(done, rest.drop_last());
        assert((done + rest).drop_last() =~= longer);
    }
}

impl MoveSourceMetadata {
    /// The module and struct declarations of `code`, or the error for a
    /// struct that is still open at the end; `None` where a line cannot be
    /// read (a `module` line without `<address>::<name>`, a `struct` line
    /// without a name, a line inside a struct without `:`).
    pub fn try_parse_move_source_metadata(code: &str) -> (r: Option<
        Result<MoveSourceMetadata, String>,
    >)
        ensures
            r is None <==> parse_source(code@) is None,
            r matches Some(res) ==> parse_source(code@) == Some(outcome_view(res)),
    {
        let cs = chars_of(code);
        let n = cs.len();
        let nl = chars_of("\n");
        proof {
            reveal_strlit("\n");
        }
        let mut scanner = Scanner::new();
        let mut pos: usize = 0;
        let mut idx: usize = 0;
        let ghost mut done: Seq<Seq<char>> = seq![];
        assert(cs@.subrange(0, n as int) =~= cs@);
        while pos < n
            invariant
                pos <= n == cs@.len(),
                cs@ == code@,
                nl@ == seq!['\n'],
                lines(cs@) == done + lines(cs@.subrange(pos as int, n as int)),
                idx == done.len(),
                idx <= pos,
                scan_lines(done) == Some(scanner@),
            decreases n - pos,
        {
            let ghost s = cs@.subrange(pos as int, n as int);
            let (end, next) = match find_in(&cs, pos, n, &nl) {
                Some(i) => {
                    if i > pos && cs[i - 1] == '\r' {
                        (i - 1, i + 1)
                    } else {
                        (i, i + 1)
                    }
                },
                None => (n, n),
            };
            let ghost line = cs@.subrange(pos as int, end as int);
            proof {
                lemma_find_from_first(s, seq!['\n'], 0);
                if next < n || end < n {
                    let i = (next - 1) as int;
                    assert(s.take(i - pos) =~= cs@.subrange(pos as int, i));
                    assert(s.skip(i - pos + 1) =~= cs@.subrange(next as int, n as int));
                    if end < i {
                        assert(cs@.subrange(pos as int, i).drop_last() =~= line);
                    }
                    assert(lines(s) == seq![line] + lines(cs@.subrange(next as int, n as int)));
                } else {
                    assert(cs@.subrange(n as int, n as int) =~= Seq::<char>::empty());
                    assert(lines(s) == seq![line]);
                }
                assert(done + (seq![line] + lines(cs@.subrange(next as int, n as int)))
                    =~= done.push(line) + lines(cs@.subrange(next as int, n as int)));
                assert(done.push(line).drop_last() =~= done);
            }
            let ok = scanner.scan(&cs, pos, end, idx);
            if !ok {
                proof {
                    lemma_scan_stopped(done.push(line), lines(cs@.subrange(next as int, n as int)));
                }
                return None;
            }
            proof {
                done = done.push(line);
            }
            pos = next;
            idx = idx + 1;
        }
        proof {
            assert(cs@.subrange(n as int, n as int) =~= Seq::<char>::empty());
            assert(done + Seq::<Seq<char>>::empty() =~= done);
        }
        if scanner.current.is_some() {
            Some(Err("Unterminated struct definition".to_owned()))
        } else {
            Some(Ok(MoveSourceMetadata { modules: scanner.modules, structs: scanner.structs }))
        }
    }

    /// The module and struct declarations of `code`, or the error for a
    /// struct that is still open at the end.
    pub fn parse_move_source_metadata(code: &str) -> (r: Result<MoveSourceMetadata, String>)
        requires
            source_is_scannable(code@),
        ensures
            parse_source(code@) == Some(outcome_view(r)),
    {
        match Self::try_parse_move_source_metadata(code) {
            Some(r) => r,
            None => {
                assert(false);
                Err(String::new())
            },
        }
    }
}

} // verus!
