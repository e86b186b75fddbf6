//! Decisions on the entries of a downloaded repository archive: whether the
//! repository is Move that the analysis can run on, and what to extract.
//!
//! The archive is read here, from its bytes, with the `zip` crate; writing
//! the extracted files is left to the caller.
use vstd::prelude::*;
use std::io::Read;
use crate::text::{
    append_str, ascii_lowercase, chars_of, contains, contains_text, same_text, string_of,
    to_ascii_lower,
};

verus! {

/// The path of an archive entry, as text and as its components.
#[derive(Debug, Clone)]
pub struct EntryName {
    pub text: String,
    pub components: Vec<String>,
}

/// An entry of the archive: its path, where it is one that stays inside the
/// extraction directory, and whether it is a directory or a file.
#[derive(Debug, Clone)]
pub struct ArchiveEntry {
    pub name: Option<EntryName>,
    pub is_dir: bool,
    pub is_file: bool,
}

pub struct EntryNameView {
    pub text: Seq<char>,
    pub components: Seq<Seq<char>>,
}

pub struct ArchiveEntryView {
    pub name: Option<EntryNameView>,
    pub is_dir: bool,
    pub is_file: bool,
}

impl View for ArchiveEntry {
    type V = ArchiveEntryView;

    open spec fn view(&self) -> ArchiveEntryView {
        ArchiveEntryView {
            name: match self.name {
                Some(n) => Some(
                    EntryNameView {
                        text: n.text@,
                        components: n.components@.map_values(|c: String| c@),
                    },
                ),
                None => None,
            },
            is_dir: self.is_dir,
            is_file: self.is_file,
        }
    }
}

/// The last component of a path, unless it is `.` or `..` (`Path::file_name`).
pub open spec fn file_name(components: Seq<Seq<char>>) -> Option<Seq<char>> {
    if components.len() > 0 && components.last() != "."@ && components.last() != ".."@ {
        Some(components.last())
    } else {
        None
    }
}

/// The position of the last `c` in `s`.
pub open spec fn rfind_char(s: Seq<char>, c: char) -> Option<int>
    decreases s.len(),
{
    if s.len() == 0 {
        None
    } else if s.last() == c {
        Some(s.len() - 1)
    } else {
        rfind_char(s.drop_last(), c)
    }
}

/// What follows the last `.` of a file name, where the name has a `.` after
/// its first character (`Path::extension`).
pub open spec fn extension(name: Seq<char>) -> Option<Seq<char>> {
    match rfind_char(name, '.') {
        Some(i) => if i == 0 {
            None
        } else {
            Some(name.skip(i + 1))
        },
        None => None,
    }
}

/// Whether a manifest's text names a Move flavour other than the one the
/// analysis runs on (Sui, Starcoin, 0L), ignoring ASCII case.
pub open spec fn names_other_flavour(toml: Seq<char>) -> bool {
    let l = to_ascii_lower(toml);
    contains(l, "sui"@) || contains(l, "starcoin"@) || contains(l, "0lnetwork"@)
}

/// Whether an entry is a package manifest (`Move.toml`, in any case) to
/// read; `None` for a file whose path has no file name.
pub open spec fn manifest_probe(e: ArchiveEntryView) -> Option<bool> {
    match e.name {
        Some(n) => if e.is_file {
            match file_name(n.components) {
                Some(f) => Some(to_ascii_lower(f) == "move.toml"@),
                None => None,
            }
        } else {
            Some(false)
        },
        None => Some(false),
    }
}

/// What to do with an entry while extracting.
pub enum EntryAction {
    /// Stop: the entry has no safe path (error code 2).
    Fail(usize),
    /// Leave the entry out: it lies in a `build` directory.
    Skip,
    /// Create the directory at this path.
    CreateDir(String),
    /// Write the file's content to this path.
    WriteFile(String),
    /// Nothing to do (an `Identifier` file, or neither file nor directory).
    Ignore,
}

pub enum EntryActionView {
    Fail(usize),
    Skip,
    CreateDir(Seq<char>),
    WriteFile(Seq<char>),
    Ignore,
}

impl View for EntryAction {
    type V = EntryActionView;

    open spec fn view(&self) -> EntryActionView {
        match self {
            EntryAction::Fail(c) => EntryActionView::Fail(*c),
            EntryAction::Skip => EntryActionView::Skip,
            EntryAction::CreateDir(p) => EntryActionView::CreateDir(p@),
            EntryAction::WriteFile(p) => EntryActionView::WriteFile(p@),
            EntryAction::Ignore => EntryActionView::Ignore,
        }
    }
}

pub open spec fn in_build_dir(components: Seq<Seq<char>>) -> bool {
    exists|i: int| 0 <= i < components.len() && to_ascii_lower(#[trigger] components[i]) == "build"@
}

/// Whether a file is a zone identifier, which only records where it was
/// downloaded from: its name has the extension `Identifier`.
pub open spec fn is_zone_identifier(components: Seq<Seq<char>>) -> bool {
    match file_name(components) {
        Some(f) => extension(f) == Some("Identifier"@),
        None => false,
    }
}

/// What to do with entry `e` when extracting into `base`.
pub open spec fn plan_spec(base: Seq<char>, e: ArchiveEntryView) -> EntryActionView {
    match e.name {
        None => EntryActionView::Fail(2),
        Some(n) => {
            let path = base + "/"@ + n.text;
            if in_build_dir(n.components) {
                EntryActionView::Skip
            } else if e.is_dir {
                EntryActionView::CreateDir(path)
            } else if e.is_file && !is_zone_identifier(n.components) {
                EntryActionView::WriteFile(path)
            } else {
                EntryActionView::Ignore
            }
        },
    }
}

fn file_name_exec(components: &Vec<String>) -> (r: Option<&String>)
    ensures
        r matches Some(s) ==> file_name(components@.map_values(|c: String| c@)) == Some(s@),
        r is None ==> file_name(components@.map_values(|c: String| c@)) is None,
{
    let ghost cv = components@.map_values(|c: String| c@);
    if components.len() == 0 {
        return None;
    }
    let last = &components[components.len() - 1];
    assert(cv.last() == last@);
    if same_text(last.as_str(), ".") || same_text(last.as_str(), "..") {
        None
    } else {
        Some(last)
    }
}

/// The extension of a file name (`Path::extension`).
pub fn extension_of(name: &str) -> (r: Option<String>)
    ensures
        r matches Some(x) ==> extension(name@) == Some(x@),
        r is None ==> extension(name@) is None,
{
    let cs = chars_of(name);
    let n = cs.len();
    let mut i = n;
    assert(name@.take(n as int) =~= name@);
    while i > 0 && cs[i - 1] != '.'
        invariant
            i <= n == cs@.len(),
            cs@ == name@,
            rfind_char(name@, '.') == rfind_char(name@.take(i as int), '.'),
        decreases i,
    {
        proof {
            assert(name@.take(i as int).drop_last() =~= name@.take(i - 1));
        }
        i = i - 1;
    }
    proof {
        assert(name@.take(n as int) =~= name@);
    }
    if i == 0 {
        assert(name@.take(0) =~= Seq::<char>::empty());
        return None;
    }
    if i == 1 {
        return None;
    }
    let x = string_of(&cs, i, n);
    assert(name@.skip(i as int) =~= x@);
    Some(x)
}

/// Whether `e` is a package manifest to read; `None` for a file whose path
/// has no file name.
pub fn try_manifest_probe(e: &ArchiveEntry) -> (r: Option<bool>)
    ensures
        r == manifest_probe(e@),
{
    match &e.name {
        Some(n) => {
            if e.is_file {
                match file_name_exec(&n.components) {
                    Some(f) => {
                        let l = ascii_lowercase(f.as_str());
                        Some(same_text(l.as_str(), "move.toml"))
                    },
                    None => None,
                }
            } else {
                Some(false)
            }
        },
        None => Some(false),
    }
}

/// Whether `e` is a package manifest to read.
pub fn is_manifest(e: &ArchiveEntry) -> (r: bool)
    requires
        manifest_probe(e@) is Some,
    ensures
        manifest_probe(e@) == Some(r),
{
    match try_manifest_probe(e) {
        Some(b) => b,
        None => {
            assert(false);
            false
        },
    }
}

/// Whether a manifest's text names another Move flavour, which rules the
/// repository out.
pub fn manifest_names_other_flavour(toml: &str) -> (r: bool)
    ensures
        r == names_other_flavour(toml@),
{
    let l = ascii_lowercase(toml);
    contains_text(l.as_str(), "sui") || contains_text(l.as_str(), "starcoin") || contains_text(
        l.as_str(),
        "0lnetwork",
    )
}

fn in_build_dir_exec(components: &Vec<String>) -> (r: bool)
    ensures
        r == in_build_dir(components@.map_values(|c: String| c@)),
{
    let ghost cv = components@.map_values(|c: String| c@);
    let mut i: usize = 0;
    while i < components.len()
        invariant
            i <= components@.len(),
            cv == components@.map_values(|c: String| c@),
            forall|j: int| 0 <= j < i ==> to_ascii_lower(#[trigger] cv[j]) != "build"@,
        decreases components.len() - i,
    {
        let l = ascii_lowercase(components[i].as_str());
        assert(cv[i as int] == components@[i as int]@);
        if same_text(l.as_str(), "build") {
            return true;
        }
        i = i + 1;
    }
    false
}

fn is_zone_identifier_exec(components: &Vec<String>) -> (r: bool)
    ensures
        r == is_zone_identifier(components@.map_values(|c: String| c@)),
{
    match file_name_exec(components) {
        Some(f) => match extension_of(f.as_str()) {
            Some(x) => same_text(x.as_str(), "Identifier"),
            None => false,
        },
        None => false,
    }
}

/// What to do with entry `e` when extracting into `base`.
pub fn plan_entry(base: &str, e: &ArchiveEntry) -> (r: EntryAction)
    ensures
        r@ == plan_spec(base@, e@),
{
    let n = match &e.name {
        None => {
            return EntryAction::Fail(2);
        },
        Some(n) => n,
    };
    let mut path = String::new();
    append_str(&mut path, base);
    append_str(&mut path, "/");
    append_str(&mut path, n.text.as_str());
    if in_build_dir_exec(&n.components) {
        return EntryAction::Skip;
    }
    if e.is_dir {
        return EntryAction::CreateDir(path);
    }
    if e.is_file && !is_zone_identifier_exec(&n.components) {
        EntryAction::WriteFile(path)
    } else {
        EntryAction::Ignore
    }
}

// ---------------------------------------------------------------------------
// Reading the archive
// ---------------------------------------------------------------------------
/// The entries of the zip archive `archive`, in its order, each with its
/// path where the path stays inside the extraction directory; `None` where
/// the bytes are not a zip archive the `zip` crate can read, or one of its
/// entries cannot be opened.
pub uninterp spec fn zip_listing(archive: Seq<u8>) -> Option<Seq<ArchiveEntryView>>;

/// The content of entry `index` of the zip archive `archive`, read as UTF-8
/// text; `None` where it cannot be read or is not UTF-8.
pub uninterp spec fn zip_entry_text(archive: Seq<u8>, index: usize) -> Option<Seq<char>>;

/// The content of entry `index` of the zip archive `archive`; `None` where
/// it cannot be read.
pub uninterp spec fn zip_entry_bytes(archive: Seq<u8>, index: usize) -> Option<Seq<u8>>;

/// The entries of a zip archive (`zip::ZipArchive::new`, then `by_index`,
/// `enclosed_name`, `is_dir` and `is_file` for each entry). The contract
/// claims that the listing is a function of the bytes alone, named
/// `zip_listing`: the crate parses the archive from the bytes without any
/// other input.
#[verifier::external_body]
fn read_zip_listing(archive: &[u8]) -> (r: Option<Vec<ArchiveEntry>>)
    ensures
        r matches Some(v) ==> zip_listing(archive@) == Some(v@.map_values(|e: ArchiveEntry| e@)),
        r is None ==> zip_listing(archive@) is None,
{
    let mut zip = zip::ZipArchive::new(std::io::Cursor::new(archive)).ok()?;
    let mut entries = Vec::new();
    for i in 0..zip.len() {
        let f = zip.by_index(i).ok()?;
        let name = f.enclosed_name().map(|p| EntryName {
            text: p.to_string_lossy().to_string(),
            components: p.components().map(|c| c.as_os_str().to_string_lossy().to_string()).collect(),
        });
        entries.push(ArchiveEntry { name, is_dir: f.is_dir(), is_file: f.is_file() });
    }
    Some(entries)
}

/// The text of an entry of a zip archive (`by_index`, then
/// `Read::read_to_string`). The contract claims that the text is a function
/// of the bytes and the index alone, named `zip_entry_text`.
#[verifier::external_body]
fn read_zip_entry_text(archive: &[u8], index: usize) -> (r: Option<String>)
    ensures
        r matches Some(t) ==> zip_entry_text(archive@, index) == Some(t@),
        r is None ==> zip_entry_text(archive@, index) is None,
{
    let mut zip = zip::ZipArchive::new(std::io::Cursor::new(archive)).ok()?;
    let mut text = String::new();
    zip.by_index(index).ok()?.read_to_string(&mut text).ok()?;
    Some(text)
}

/// The content of an entry of a zip archive (`by_index`, then
/// `Read::read_to_end`). The contract claims that the content is a function
/// of the bytes and the index alone, named `zip_entry_bytes`.
#[verifier::external_body]
fn read_zip_entry_bytes(archive: &[u8], index: usize) -> (r: Option<Vec<u8>>)
    ensures
        r matches Some(b) ==> zip_entry_bytes(archive@, index) == Some(b@),
        r is None ==> zip_entry_bytes(archive@, index) is None,
{
    let mut zip = zip::ZipArchive::new(std::io::Cursor::new(archive)).ok()?;
    let mut bytes = Vec::new();
    zip.by_index(index).ok()?.read_to_end(&mut bytes).ok()?;
    Some(bytes)
}

/// The verdict of the manifests of the entries `es` from entry `i` on, in
/// order: `false` at the first manifest whose text names another flavour,
/// `true` where none does; a manifest that cannot be read as text is passed
/// over. `None` at a file whose path has no file name.
pub open spec fn manifests_verdict(archive: Seq<u8>, es: Seq<ArchiveEntryView>, i: int) -> Option<
    bool,
>
    decreases es.len() - i,
{
    if i < 0 || i >= es.len() {
        Some(true)
    } else {
        match manifest_probe(es[i]) {
            None => None,
            Some(false) => manifests_verdict(archive, es, i + 1),
            Some(true) => match zip_entry_text(archive, i as usize) {
                Some(t) => if names_other_flavour(t) {
                    Some(false)
                } else {
                    manifests_verdict(archive, es, i + 1)
                },
                None => manifests_verdict(archive, es, i + 1),
            },
        }
    }
}

/// Whether the repository in `archive` is Move that the analysis can run
/// on; `None` where the archive cannot be listed or a file in it has no
/// file name.
pub open spec fn usable_archive(archive: Seq<u8>) -> Option<bool> {
    match zip_listing(archive) {
        Some(es) => manifests_verdict(archive, es, 0),
        None => None,
    }
}

/// Entry `j` is a manifest, readable as text, that names another flavour.
pub open spec fn rules_out(archive: Seq<u8>, es: Seq<ArchiveEntryView>, j: int) -> bool {
    &&& manifest_probe(es[j]) == Some(true)
    &&& zip_entry_text(archive, j as usize) matches Some(t) && names_other_flavour(t)
}

proof fn lemma_verdict_from(archive: Seq<u8>, es: Seq<ArchiveEntryView>, i: int)
    requires
        0 <= i <= es.len(),
    ensures
        manifests_verdict(archive, es, i) == Some(true) <==> forall|j: int|
            i <= j < es.len() ==> (#[trigger] manifest_probe(es[j])) is Some && !rules_out(
                archive,
                es,
                j,
            ),
        manifests_verdict(archive, es, i) == Some(false) <==> exists|j: int|
            i <= j < es.len() && rules_out(archive, es, j) && forall|m: int|
                i <= m < j ==> (#[trigger] manifest_probe(es[m])) is Some,
    decreases es.len() - i,
{
    if i < es.len() {
        lemma_verdict_from(archive, es, i + 1);
        let v = manifests_verdict(archive, es, i);
        match manifest_probe(es[i]) {
            None => {
                assert(manifest_probe(es[i]) is None);
                assert forall|j: int|
                    i <= j < es.len() && rules_out(archive, es, j) implies !(forall|m: int|
                    i <= m < j ==> (#[trigger] manifest_probe(es[m])) is Some) by {
                    if j > i {
                        assert(manifest_probe(es[i]) is None);
                    }
                }
            },
            Some(p) => {
                if rules_out(archive, es, i) {
                    assert(v == Some(false));
                    assert(forall|m: int| i <= m < i ==> (#[trigger] manifest_probe(es[m])) is Some);
                } else {
                    assert(v == manifests_verdict(archive, es, i + 1));
                    assert((forall|j: int|
                        i <= j < es.len() ==> (#[trigger] manifest_probe(es[j])) is Some
                            && !rules_out(archive, es, j)) <==> (forall|j: int|
                        i + 1 <= j < es.len() ==> (#[trigger] manifest_probe(es[j])) is Some
                            && !rules_out(archive, es, j)));
                    if v == Some(false) {
                        let j = choose|j: int|
                            i + 1 <= j < es.len() && rules_out(archive, es, j) && forall|m: int|
                                i + 1 <= m < j ==> (#[trigger] manifest_probe(es[m])) is Some;
                        assert forall|m: int| i <= m < j implies (#[trigger] manifest_probe(
                            es[m],
                        )) is Some by {
                            if m > i {
                                assert(i + 1 <= m < j);
                            }
                        }
                    }
                    if exists|j: int|
                        i <= j < es.len() && rules_out(archive, es, j) && forall|m: int|
                            i <= m < j ==> (#[trigger] manifest_probe(es[m])) is Some {
                        let j = choose|j: int|
                            i <= j < es.len() && rules_out(archive, es, j) && forall|m: int|
                                i <= m < j ==> (#[trigger] manifest_probe(es[m])) is Some;
                        assert(j != i);
                        assert forall|m: int| i + 1 <= m < j implies (#[trigger] manifest_probe(
                            es[m],
                        )) is Some by {}
                        assert(manifests_verdict(archive, es, i + 1) == Some(false));
                    }
                }
            },
        }
    }
}

/// The verdict on an archive that can be listed looks at every entry, in
/// order: the repository is usable Move exactly where every file has a file
/// name and no readable manifest at any position names another flavour; it
/// is ruled out exactly where some readable manifest names another flavour
/// and every file before it has a file name.
pub proof fn lemma_usable_archive(archive: Seq<u8>)
    ensures
        zip_listing(archive) is None ==> usable_archive(archive) is None,
        zip_listing(archive) matches Some(es) ==> {
            &&& usable_archive(archive) == Some(true) <==> forall|j: int|
                0 <= j < es.len() ==> (#[trigger] manifest_probe(es[j])) is Some && !rules_out(
                    archive,
                    es,
                    j,
                )
            &&& usable_archive(archive) == Some(false) <==> exists|j: int|
                0 <= j < es.len() && rules_out(archive, es, j) && forall|m: int|
                    0 <= m < j ==> (#[trigger] manifest_probe(es[m])) is Some
        },
{
    if let Some(es) = zip_listing(archive) {
        lemma_verdict_from(archive, es, 0);
        assert(usable_archive(archive) == manifests_verdict(archive, es, 0));
    }
}

/// The plan for the entries `es` from entry `i` on, each with its index, up
/// to and including the first that fails.
pub open spec fn plan_from(base: Seq<char>, es: Seq<ArchiveEntryView>, i: int) -> Seq<
    (usize, EntryActionView),
>
    decreases es.len() - i,
{
    if i < 0 || i >= es.len() {
        seq![]
    } else {
        let a = plan_spec(base, es[i]);
        if a is Fail {
            seq![(i as usize, a)]
        } else {
            seq![(i as usize, a)] + plan_from(base, es, i + 1)
        }
    }
}

/// What extracting `archive` into `base` does: `Err(1)` where the
/// repository is not usable Move, else the plan of its entries; `None`
/// where the archive cannot be listed or a file in it has no file name.
pub open spec fn unzip_plan_spec(archive: Seq<u8>, base: Seq<char>) -> Option<
    Result<Seq<(usize, EntryActionView)>, usize>,
> {
    match zip_listing(archive) {
        None => None,
        Some(es) => match manifests_verdict(archive, es, 0) {
            None => None,
            Some(false) => Some(Err(1)),
            Some(true) => Some(Ok(plan_from(base, es, 0))),
        },
    }
}

pub open spec fn plan_view(v: Seq<(usize, EntryAction)>) -> Seq<(usize, EntryActionView)> {
    v.map_values(|p: (usize, EntryAction)| (p.0, p.1@))
}

fn manifests_verdict_exec(archive: &[u8], entries: &Vec<ArchiveEntry>) -> (r: Option<bool>)
    ensures
        r == manifests_verdict(archive@, entries@.map_values(|e: ArchiveEntry| e@), 0),
{
    let ghost es = entries@.map_values(|e: ArchiveEntry| e@);
    let mut i: usize = 0;
    while i < entries.len()
        invariant
            i <= entries@.len(),
            es == entries@.map_values(|e: ArchiveEntry| e@),
            manifests_verdict(archive@, es, 0) == manifests_verdict(archive@, es, i as int),
        decreases entries.len() - i,
    {
        assert(es[i as int] == entries@[i as int]@);
        match try_manifest_probe(&entries[i]) {
            None => {
                return None;
            },
            Some(false) => {},
            Some(true) => match read_zip_entry_text(archive, i) {
                Some(t) => {
                    if manifest_names_other_flavour(t.as_str()) {
                        return Some(false);
                    }
                },
                None => {},
            },
        }
        i = i + 1;
    }
    Some(true)
}

/// Whether the repository in `archive` is Move that the analysis can run
/// on: no manifest (`Move.toml`) of it names another flavour. The manifests
/// are read in archive order, stopping at the first that rules the
/// repository out; one that cannot be read as text is passed over. `None`
/// where the archive cannot be listed or a file in it has no file name.
pub fn can_be_executed(archive: &[u8]) -> (r: Option<bool>)
    ensures
        r == usable_archive(archive@),
{
    match read_zip_listing(archive) {
        Some(entries) => manifests_verdict_exec(archive, &entries),
        None => None,
    }
}

fn plan_entries(base: &str, entries: &Vec<ArchiveEntry>) -> (r: Vec<(usize, EntryAction)>)
    ensures
        plan_view(r@) == plan_from(base@, entries@.map_values(|e: ArchiveEntry| e@), 0),
{
    let ghost es = entries@.map_values(|e: ArchiveEntry| e@);
    let mut out: Vec<(usize, EntryAction)> = Vec::new();
    let mut i: usize = 0;
    assert(plan_view(out@) + plan_from(base@, es, 0) =~= plan_from(base@, es, 0));
    while i < entries.len()
        invariant
            i <= entries@.len(),
            es == entries@.map_values(|e: ArchiveEntry| e@),
            plan_view(out@) + plan_from(base@, es, i as int) == plan_from(base@, es, 0),
        decreases entries.len() - i,
    {
        assert(es[i as int] == entries@[i as int]@);
        let a = plan_entry(base, &entries[i]);
        let fails = match &a {
            EntryAction::Fail(_) => true,
            _ => false,
        };
        let ghost before = plan_view(out@);
        let ghost av = a@;
        out.push((i, a));
        proof {
            assert(plan_view(out@) =~= before.push((i, av)));
            if fails {
                assert(plan_from(base@, es, i as int) == seq![(i, av)]);
                assert(plan_view(out@) =~= before + plan_from(base@, es, i as int));
            } else {
                assert(plan_from(base@, es, i as int) == seq![(i, av)] + plan_from(
                    base@,
                    es,
                    i + 1,
                ));
                assert(before + plan_from(base@, es, i as int) =~= plan_view(out@) + plan_from(
                    base@,
                    es,
                    i + 1,
                ));
            }
        }
        if fails {
            proof {
                assert(plan_view(out@) =~= plan_view(out@) + Seq::<(usize, EntryActionView)>::empty());
            }
            return out;
        }
        i = i + 1;
    }
    assert(plan_from(base@, es, i as int) =~= Seq::<(usize, EntryActionView)>::empty());
    assert(plan_view(out@) + plan_from(base@, es, i as int) =~= plan_view(out@));
    out
}

/// What extracting `archive` into `base` does: `Err(1)` where the
/// repository is not usable Move (see `can_be_executed`), else the action
/// for each entry, with its index, in archive order up to and including the
/// first that fails. `None` where the archive cannot be listed or a file in
/// it has no file name.
pub fn unzip_plan(archive: &[u8], base: &str) -> (r: Option<Result<Vec<(usize, EntryAction)>, usize>>)
    ensures
        r is None <==> unzip_plan_spec(archive@, base@) is None,
        r matches Some(Err(c)) ==> unzip_plan_spec(archive@, base@) == Some(
            Err::<Seq<(usize, EntryActionView)>, usize>(c),
        ),
        r matches Some(Ok(v)) ==> unzip_plan_spec(archive@, base@) == Some(
            Ok::<Seq<(usize, EntryActionView)>, usize>(plan_view(v@)),
        ),
{
    let entries = match read_zip_listing(archive) {
        Some(entries) => entries,
        None => {
            return None;
        },
    };
    match manifests_verdict_exec(archive, &entries) {
        None => None,
        Some(false) => Some(Err(1)),
        Some(true) => Some(Ok(plan_entries(base, &entries))),
    }
}

/// The content of entry `index` of the zip archive `archive`, to write to
/// the file that the plan names; `None` where it cannot be read.
pub fn entry_content(archive: &[u8], index: usize) -> (r: Option<Vec<u8>>)
    ensures
        r matches Some(b) ==> zip_entry_bytes(archive@, index) == Some(b@),
        r is None ==> zip_entry_bytes(archive@, index) is None,
{
    read_zip_entry_bytes(archive, index)
}

} // verus!
