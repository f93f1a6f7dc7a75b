//! Typed model of an `.xcworkspace`.
//!
//! A workspace's `contents.xcworkspacedata` lists the projects it holds:
//!
//! ```xml
//! <Workspace version="1.0">
//!   <FileRef location="group:Foo.xcodeproj"/>
//!   <Group location="container:..." name="Subgroup">
//!     <FileRef location="group:Baz.xcodeproj"/>
//!   </Group>
//! </Workspace>
//! ```
//!
//! Location prefixes handled: `container:`, `group:` and `self:` (relative
//! to the enclosing directory), `absolute:` (an absolute path) and
//! `developer:` (relative to the active Developer directory). Reading the
//! files is the caller's work; this module computes from what was read.

use vstd::prelude::*;

use crate::element::{
    attr_value, element_listing, listing_well_formed, parse_element_tree, xml_element_listing, Element,
};
use crate::order::{insert_sorted, insert_unique, sorted, strictly_sorted};
use crate::path::{
    extension_of, file_stem_of, is_absolute, join_path, joined_path, parent_of, path_exists,
    path_extension, path_file_stem, path_is_absolute, path_parent,
};
use crate::text::{
    chars_of, find, first_occurrence, lemma_first_occurrence_at, lemma_first_occurrence_found,
    occurs_at, push_chars, str_eq, string_from, string_views,
};

verus! {

/// Where a `location="<prefix>:<rest>"` attribute points, given the
/// directory it is relative to and the active Developer directory; `None`
/// when it has no `:` or an unknown prefix.
pub open spec fn resolved_location(location: Seq<char>, base: Seq<char>, developer_dir: Seq<char>) -> Option<Seq<char>> {
    match first_occurrence(location, seq![':']) {
        None => None,
        Some(i) => {
            let prefix = location.subrange(0, i);
            let rest = location.subrange(i + 1, location.len() as int);
            if prefix == "container"@ || prefix == "group"@ || prefix == "self"@ {
                Some(joined_path(base, rest))
            } else if prefix == "absolute"@ {
                Some(rest)
            } else if prefix == "developer"@ {
                Some(joined_path(developer_dir, rest))
            } else {
                None
            }
        },
    }
}

/// A location is split at its first `:`: the text before it picks the
/// rule, and everything after it, further colons included, is the path.
/// `container:`, `group:` and `self:` are relative to the base, `absolute:`
/// is the path itself, `developer:` is relative to the Developer directory,
/// and any other prefix resolves to nothing; so does a location without a
/// colon.
pub proof fn lemma_location_rules(
    prefix: Seq<char>,
    rest: Seq<char>,
    base: Seq<char>,
    developer_dir: Seq<char>,
)
    requires
        !prefix.contains(':'),
    ensures
        resolved_location(prefix + seq![':'] + rest, base, developer_dir) == if prefix
            == "container"@ || prefix == "group"@ || prefix == "self"@ {
            Some(joined_path(base, rest))
        } else if prefix == "absolute"@ {
            Some(rest)
        } else if prefix == "developer"@ {
            Some(joined_path(developer_dir, rest))
        } else {
            None
        },
        resolved_location(prefix, base, developer_dir) is None,
{
    let s = prefix + seq![':'] + rest;
    let colon = seq![':'];
    let n: int = prefix.len() as int;
    assert(s.subrange(n, n + 1) =~= colon);
    assert forall|j: int| 0 <= j < n implies !occurs_at(s, colon, j) by {
        if occurs_at(s, colon, j) {
            assert(s.subrange(j, j + 1)[0] == s[j]);
            assert(s[j] == prefix[j]);
        }
    }
    lemma_first_occurrence_at(s, colon, 0, n);
    assert(s.subrange(0, n) =~= prefix);
    assert(s.subrange(n + 1, s.len() as int) =~= rest);
    assert forall|j: int| 0 <= j implies !occurs_at(prefix, colon, j) by {
        if occurs_at(prefix, colon, j) {
            assert(prefix.subrange(j, j + 1)[0] == prefix[j]);
        }
    }
    lemma_first_occurrence_found(prefix, colon, 0);
}

/// Resolves a `location="<prefix>:<rest>"` to a path, given the base
/// directory (the directory containing the workspace, or the enclosing
/// group's resolved location) and the active Developer directory.
pub fn resolve_location(location: &str, base: &str, developer_dir: &str) -> (r: Option<String>)
    ensures
        r matches Some(p) ==> resolved_location(location@, base@, developer_dir@) == Some(p@),
        r is None ==> resolved_location(location@, base@, developer_dir@) is None,
{
    let v = chars_of(location);
    let colon: Vec<char> = vec![':'];
    assert(colon@ =~= seq![':']);
    let i: usize = match find(&v, &colon) {
        Some(i) => i,
        None => return None,
    };
    proof {
        lemma_first_occurrence_found(v@, colon@, 0);
    }
    let n: usize = v.len();
    assert(i + 1 <= n);
    let prefix = string_from(&v, 0, i);
    let rest = string_from(&v, i + 1, n);
    let p = prefix.as_str();
    if str_eq(p, "container") || str_eq(p, "group") || str_eq(p, "self") {
        Some(join_path(base, rest.as_str()))
    } else if str_eq(p, "absolute") {
        Some(rest)
    } else if str_eq(p, "developer") {
        Some(join_path(developer_dir, rest.as_str()))
    } else {
        None
    }
}

/// The project paths one child element of a workspace contributes: a
/// `FileRef` whose location resolves to an `.xcodeproj`, or every project
/// inside a `Group`, whose own location (when it has one that resolves)
/// becomes the base of its children.
pub open spec fn project_refs_of_child(child: Element, base: Seq<char>, developer_dir: Seq<char>) -> Seq<Seq<char>>
    decreases child, 1int,
{
    if child.name@ == "FileRef"@ {
        match attr_value(child.attributes@, "location"@) {
            None => Seq::empty(),
            Some(location) => match resolved_location(location, base, developer_dir) {
                None => Seq::empty(),
                Some(p) => if path_extension(p) == Some("xcodeproj"@) {
                    seq![p]
                } else {
                    Seq::empty()
                },
            },
        }
    } else if child.name@ == "Group"@ {
        let group_base = match attr_value(child.attributes@, "location"@) {
            Some(location) => match resolved_location(location, base, developer_dir) {
                Some(p) => p,
                None => base,
            },
            None => base,
        };
        project_refs_in(child.children@, group_base, developer_dir)
    } else {
        Seq::empty()
    }
}

/// The project paths the given elements contribute, in document order.
pub open spec fn project_refs_in(children: Seq<Element>, base: Seq<char>, developer_dir: Seq<char>) -> Seq<Seq<char>>
    decreases children, 0int,
{
    if children.len() == 0 {
        Seq::empty()
    } else {
        project_refs_of_child(children[0], base, developer_dir) + project_refs_in(
            children.drop_first(),
            base,
            developer_dir,
        )
    }
}

/// A `Group` whose `location` resolves re-anchors its children: the
/// projects it contributes are those its children reference relative to
/// the group's resolved location.
pub proof fn lemma_group_reanchors(child: Element, base: Seq<char>, developer_dir: Seq<char>, g: Seq<char>)
    requires
        child.name@ == "Group"@,
        attr_value(child.attributes@, "location"@) matches Some(l) && resolved_location(
            l,
            base,
            developer_dir,
        ) == Some(g),
    ensures
        project_refs_of_child(child, base, developer_dir) == project_refs_in(
            child.children@,
            g,
            developer_dir,
        ),
{
    reveal_strlit("Group");
    reveal_strlit("FileRef");
    assert("Group"@.len() == 5);
    assert("FileRef"@.len() == 7);
    assert(child.name@ != "FileRef"@);
}

/// A `Group` with location `container:P`, `group:P` or `self:P` re-anchors
/// its children at `P` taken relative to the enclosing base; one without a
/// location, or with one that does not resolve, leaves them at the base.
pub proof fn lemma_group_location_rules(
    child: Element,
    base: Seq<char>,
    developer_dir: Seq<char>,
    prefix: Seq<char>,
    rest: Seq<char>,
)
    requires
        child.name@ == "Group"@,
    ensures
        attr_value(child.attributes@, "location"@) == Some(prefix + seq![':'] + rest) && (prefix
            == "container"@ || prefix == "group"@ || prefix == "self"@) ==> project_refs_of_child(
            child,
            base,
            developer_dir,
        ) == project_refs_in(child.children@, joined_path(base, rest), developer_dir),
        (attr_value(child.attributes@, "location"@) is None || resolved_location(
            attr_value(child.attributes@, "location"@)->0,
            base,
            developer_dir,
        ) is None) ==> project_refs_of_child(child, base, developer_dir) == project_refs_in(
            child.children@,
            base,
            developer_dir,
        ),
{
    reveal_strlit("Group");
    reveal_strlit("FileRef");
    reveal_strlit("container");
    reveal_strlit("group");
    reveal_strlit("self");
    assert("Group"@.len() == 5);
    assert("FileRef"@.len() == 7);
    assert(child.name@ != "FileRef"@);
    if prefix == "container"@ || prefix == "group"@ || prefix == "self"@ {
        assert(!prefix.contains(':'));
        lemma_location_rules(prefix, rest, base, developer_dir);
    }
}

/// A `FileRef` contributes exactly the path its location resolves to, when
/// that names an `.xcodeproj`, and nothing otherwise.
pub proof fn lemma_file_ref_rule(child: Element, base: Seq<char>, developer_dir: Seq<char>)
    requires
        child.name@ == "FileRef"@,
    ensures
        (attr_value(child.attributes@, "location"@) matches Some(l) && resolved_location(
            l,
            base,
            developer_dir,
        ) matches Some(p) && path_extension(p) == Some("xcodeproj"@)) ==> project_refs_of_child(
            child,
            base,
            developer_dir,
        ) == seq![resolved_location(attr_value(child.attributes@, "location"@)->0, base, developer_dir)->0],
        project_refs_of_child(child, base, developer_dir).len() <= 1,
{
}

/// Every path a workspace element references names an `.xcodeproj`.
pub proof fn lemma_child_refs_are_projects(child: Element, base: Seq<char>, developer_dir: Seq<char>)
    ensures
        forall|k: int|
            0 <= k < project_refs_of_child(child, base, developer_dir).len() ==> path_extension(
                #[trigger] project_refs_of_child(child, base, developer_dir)[k],
            ) == Some("xcodeproj"@),
    decreases child, 1int,
{
    if child.name@ != "FileRef"@ && child.name@ == "Group"@ {
        let group_base = match attr_value(child.attributes@, "location"@) {
            Some(location) => match resolved_location(location, base, developer_dir) {
                Some(p) => p,
                None => base,
            },
            None => base,
        };
        lemma_refs_are_projects(child.children@, group_base, developer_dir);
    }
}

/// Every path the children of a workspace element reference names an
/// `.xcodeproj`.
pub proof fn lemma_refs_are_projects(children: Seq<Element>, base: Seq<char>, developer_dir: Seq<char>)
    ensures
        forall|k: int|
            0 <= k < project_refs_in(children, base, developer_dir).len() ==> path_extension(
                #[trigger] project_refs_in(children, base, developer_dir)[k],
            ) == Some("xcodeproj"@),
    decreases children, 0int,
{
    if children.len() > 0 {
        lemma_child_refs_are_projects(children[0], base, developer_dir);
        lemma_refs_are_projects(children.drop_first(), base, developer_dir);
        let a = project_refs_of_child(children[0], base, developer_dir);
        let b = project_refs_in(children.drop_first(), base, developer_dir);
        let l = project_refs_in(children, base, developer_dir);
        assert(l == a + b);
        assert forall|k: int| 0 <= k < l.len() implies path_extension(#[trigger] l[k]) == Some(
            "xcodeproj"@,
        ) by {
            if k < a.len() {
                assert(l[k] == a[k]);
            } else {
                assert(l[k] == b[k - a.len()]);
            }
        }
    }
}

/// References are listed in document order: those of a run of siblings
/// are those of its first part followed by those of the rest.
pub proof fn lemma_refs_concat(a: Seq<Element>, b: Seq<Element>, base: Seq<char>, developer_dir: Seq<char>)
    ensures
        project_refs_in(a + b, base, developer_dir) == project_refs_in(a, base, developer_dir)
            + project_refs_in(b, base, developer_dir),
    decreases a.len(),
{
    if a.len() == 0 {
        assert(a + b =~= b);
        assert(project_refs_in(a, base, developer_dir) + project_refs_in(b, base, developer_dir)
            =~= project_refs_in(b, base, developer_dir));
    } else {
        assert((a + b)[0] == a[0]);
        assert((a + b).drop_first() =~= a.drop_first() + b);
        lemma_refs_concat(a.drop_first(), b, base, developer_dir);
        let c = project_refs_of_child(a[0], base, developer_dir);
        assert(project_refs_in(a + b, base, developer_dir) =~= c + (project_refs_in(
            a.drop_first(),
            base,
            developer_dir,
        ) + project_refs_in(b, base, developer_dir)));
    }
}

/// Whether `p` names an `.xcodeproj`.
fn is_xcodeproj(p: &str) -> (r: bool)
    ensures
        r == (path_extension(p@) == Some("xcodeproj"@)),
{
    match extension_of(p) {
        Some(e) => str_eq(e.as_str(), "xcodeproj"),
        None => false,
    }
}

/// Appends to `out` the project paths that the children of `element`
/// reference, in document order, keeping what `out` held before them: for
/// each `FileRef` reached through `Group` children only, its location
/// resolved against the nearest enclosing group's resolved location (or
/// `base`), when that is an `.xcodeproj`.
pub fn collect_project_refs(element: &Element, base: &str, developer_dir: &str, out: &mut Vec<String>)
    ensures
        string_views(final(out)@) == string_views(old(out)@) + project_refs_in(
            element.children@,
            base@,
            developer_dir@,
        ),
    decreases element,
{
    let ghost children = element.children@;
    let mut i: usize = 0;
    assert(children.skip(0) =~= children);
    while i < element.children.len()
        invariant
            i <= element.children.len(),
            children == element.children@,
            string_views(out@) + project_refs_in(children.skip(i as int), base@, developer_dir@)
                == string_views(old(out)@) + project_refs_in(children, base@, developer_dir@),
        decreases element.children.len() - i,
    {
        let child = &element.children[i];
        assert(children.skip(i as int)[0] == children[i as int]);
        assert(children.skip(i as int).drop_first() =~= children.skip(i + 1));
        let ghost before = string_views(out@);
        let ghost contributed = project_refs_of_child(*child, base@, developer_dir@);
        if str_eq(child.name.as_str(), "FileRef") {
            if let Some(location) = child.attr("location") {
                if let Some(p) = resolve_location(location, base, developer_dir) {
                    if is_xcodeproj(p.as_str()) {
                        let ghost pv = p@;
                        out.push(p);
                        assert(string_views(out@) =~= before + seq![pv]);
                    }
                }
            }
            assert(string_views(out@) =~= before + contributed);
        } else if str_eq(child.name.as_str(), "Group") {
            let group_base = match child.attr("location") {
                Some(location) => match resolve_location(location, base, developer_dir) {
                    Some(p) => p,
                    None => base.to_owned(),
                },
                None => base.to_owned(),
            };
            collect_project_refs(child, group_base.as_str(), developer_dir, out);
        } else {
            assert(string_views(out@) =~= before + contributed);
        }
        i = i + 1;
    }
    assert(children.skip(i as int) =~= Seq::<Element>::empty());
    assert(string_views(out@) + Seq::<Seq<char>>::empty() =~= string_views(out@));
}

/// `std::io::Error`, carried through as it came.
#[verifier::external_type_specification]
#[verifier::external_body]
pub struct ExIoError(std::io::Error);

/// Why a workspace could not be opened.
#[derive(Debug)]
pub enum Error {
    /// Reading a file failed.
    Io(std::io::Error),
    /// `contents.xcworkspacedata` is not well-formed XML; the message says why.
    Parse(String),
    /// The file is XML but does not describe a workspace.
    BadWorkspace(String),
}

/// The message of an I/O error (its `Display` text). Nothing is promised of
/// it: the operating system supplies it.
#[verifier::external_body]
fn io_error_text(e: &std::io::Error) -> String {
    format!("{e}")
}

impl Error {
    /// The error as a sentence: `I/O error: …`, the parser's message, or
    /// `invalid workspace: …`.
    pub fn message(&self) -> (r: String)
        ensures
            self matches Error::Parse(m) ==> r@ == m@,
            self matches Error::BadWorkspace(m) ==> r@ == "invalid workspace: "@ + m@,
            self is Io ==> exists|t: Seq<char>| r@ == "I/O error: "@ + t,
    {
        match self {
            Error::Io(e) => {
                let mut r = "I/O error: ".to_owned();
                let t = io_error_text(e);
                let tc = chars_of(t.as_str());
                push_chars(&mut r, &tc);
                r
            },
            Error::Parse(m) => m.clone(),
            Error::BadWorkspace(m) => {
                let mut r = "invalid workspace: ".to_owned();
                let mc = chars_of(m.as_str());
                push_chars(&mut r, &mc);
                r
            },
        }
    }
}

/// A workspace: its name, where it is, the projects it references and its
/// shared schemes.
#[derive(Debug, Clone)]
pub struct Workspace {
    /// `.xcworkspace` basename without extension (e.g. `Kingfisher`).
    pub name: String,
    /// Path of the `.xcworkspace` directory.
    pub path: String,
    /// Paths of every `.xcodeproj` the workspace references, in declaration
    /// order.
    pub project_refs: Vec<String>,
    /// Shared scheme names from `<ws>/xcshareddata/xcschemes/`, sorted.
    pub schemes: Vec<String>,
}

/// The scheme a directory entry names: the file stem of an `.xcscheme`.
pub open spec fn scheme_name_of(entry: Seq<char>) -> Option<Seq<char>> {
    if path_extension(entry) == Some("xcscheme"@) {
        path_file_stem(entry)
    } else {
        None
    }
}

/// The schemes the entries of a directory name, in entry order.
pub open spec fn scheme_names_in(entries: Seq<Seq<char>>) -> Seq<Seq<char>>
    decreases entries.len(),
{
    if entries.len() == 0 {
        Seq::empty()
    } else {
        let before = scheme_names_in(entries.drop_last());
        match scheme_name_of(entries.last()) {
            Some(n) => before.push(n),
            None => before,
        }
    }
}

/// The schemes a directory's entries name are every `.xcscheme` entry's
/// stem, in entry order, and nothing else.
pub proof fn lemma_scheme_names_are_every_scheme(entries: Seq<Seq<char>>)
    ensures
        scheme_names_in(entries) == entries.filter(|e: Seq<char>| scheme_name_of(e) is Some).map_values(
            |e: Seq<char>| scheme_name_of(e)->0,
        ),
    decreases entries.len(),
{
    reveal(Seq::filter);
    let pred = |e: Seq<char>| scheme_name_of(e) is Some;
    let get = |e: Seq<char>| scheme_name_of(e)->0;
    if entries.len() > 0 {
        lemma_scheme_names_are_every_scheme(entries.drop_last());
        let before = entries.drop_last().filter(pred);
        assert(entries.filter(pred) == if pred(entries.last()) {
            before.push(entries.last())
        } else {
            before
        });
        if scheme_name_of(entries.last()) is Some {
            assert(before.push(entries.last()).map_values(get) =~= before.map_values(get).push(
                scheme_name_of(entries.last())->0,
            ));
        }
    } else {
        assert(entries.filter(pred).map_values(get) =~= Seq::<Seq<char>>::empty());
    }
}

/// The scheme an entry names, if it is an `.xcscheme`.
fn scheme_name(entry: &str) -> (r: Option<String>)
    ensures
        r matches Some(n) ==> scheme_name_of(entry@) == Some(n@),
        r is None ==> scheme_name_of(entry@) is None,
{
    let is_scheme = match extension_of(entry) {
        Some(e) => str_eq(e.as_str(), "xcscheme"),
        None => false,
    };
    if is_scheme {
        file_stem_of(entry)
    } else {
        None
    }
}

/// The shared scheme names found among the entries (paths) of an
/// `xcshareddata/xcschemes` directory, sorted; every `.xcscheme` entry
/// gives its file stem, and nothing else counts.
pub fn shared_scheme_names(entries: &Vec<String>) -> (r: Vec<String>)
    ensures
        sorted(string_views(r@)),
        string_views(r@).to_multiset() == scheme_names_in(string_views(entries@)).to_multiset(),
{
    let ghost ev = string_views(entries@);
    let mut r: Vec<String> = Vec::new();
    let mut i: usize = 0;
    assert(string_views(r@) =~= Seq::<Seq<char>>::empty());
    assert(ev.take(0) =~= Seq::<Seq<char>>::empty());
    while i < entries.len()
        invariant
            i <= entries.len(),
            ev == string_views(entries@),
            sorted(string_views(r@)),
            string_views(r@).to_multiset() == scheme_names_in(ev.take(i as int)).to_multiset(),
        decreases entries.len() - i,
    {
        assert(ev.take(i + 1).drop_last() =~= ev.take(i as int));
        assert(ev.take(i + 1).last() == entries@[i as int]@);
        let ghost before = scheme_names_in(ev.take(i as int));
        match scheme_name(entries[i].as_str()) {
            Some(n) => {
                let ghost nv = n@;
                insert_sorted(&mut r, n);
                proof {
                    before.to_multiset_ensures();
                    assert(scheme_names_in(ev.take(i + 1)) == before.push(nv));
                }
            },
            None => {},
        }
        i = i + 1;
    }
    assert(ev.take(entries.len() as int) =~= ev);
    r
}

/// The absolute form of a path: the path itself when it is absolute, else
/// the path taken relative to the current directory.
pub open spec fn absolute_path_of(path: Seq<char>, current_dir: Seq<char>) -> Seq<char> {
    if path_is_absolute(path) {
        path
    } else {
        joined_path(current_dir, path)
    }
}

/// The absolute form of `path`, given the current directory.
pub fn absolute_path(path: &str, current_dir: &str) -> (r: String)
    ensures
        r@ == absolute_path_of(path@, current_dir@),
{
    if is_absolute(path) {
        path.to_owned()
    } else {
        join_path(current_dir, path)
    }
}

/// The base that `group:` and `container:` locations of a workspace are
/// relative to: the directory containing the `.xcworkspace` (the path
/// itself when it has no parent).
pub open spec fn workspace_base(workspace_path: Seq<char>) -> Seq<char> {
    match path_parent(workspace_path) {
        Some(p) => p,
        None => workspace_path,
    }
}

/// The workspace's name: the file stem of its path, or empty.
pub open spec fn workspace_name(workspace_path: Seq<char>) -> Seq<char> {
    match path_file_stem(workspace_path) {
        Some(n) => n,
        None => Seq::empty(),
    }
}

/// The error message for a document whose root is not `<Workspace>`.
pub open spec fn bad_root_message(root_name: Seq<char>) -> Seq<char> {
    "expected root <Workspace>, got <"@ + root_name + seq!['>']
}

/// Builds the workspace at `workspace_path` from the parsed root of its
/// `contents.xcworkspacedata` and the entries of its
/// `xcshareddata/xcschemes` directory (none when that could not be read).
/// A relative `workspace_path` is taken relative to `current_dir`, so the
/// workspace's path, and the projects it references through `group:`,
/// `container:` and `self:` locations, are absolute. A root other than
/// `<Workspace>` is refused.
pub fn workspace_from_contents(
    workspace_path: &str,
    current_dir: &str,
    root: &Element,
    scheme_entries: &Vec<String>,
    developer_dir: &str,
) -> (r: Result<Workspace, Error>)
    ensures
        r is Err <==> root.name@ != "Workspace"@,
        r matches Err(e) ==> e matches Error::BadWorkspace(m) && m@ == bad_root_message(root.name@),
        r matches Ok(ws) ==> workspace_built(
            ws,
            absolute_path_of(workspace_path@, current_dir@),
            *root,
            scheme_entries@,
            developer_dir@,
        ),
{
    if !str_eq(root.name.as_str(), "Workspace") {
        let mut m = "expected root <Workspace>, got <".to_owned();
        let nc = chars_of(root.name.as_str());
        push_chars(&mut m, &nc);
        crate::text::push_char(&mut m, '>');
        return Err(Error::BadWorkspace(m));
    }
    let path = absolute_path(workspace_path, current_dir);
    let base = match parent_of(path.as_str()) {
        Some(p) => p,
        None => path.clone(),
    };
    let mut project_refs: Vec<String> = Vec::new();
    collect_project_refs(root, base.as_str(), developer_dir, &mut project_refs);
    assert(string_views(project_refs@) =~= project_refs_in(
        root.children@,
        workspace_base(path@),
        developer_dir@,
    ));
    let schemes = shared_scheme_names(scheme_entries);
    let name = match file_stem_of(path.as_str()) {
        Some(n) => n,
        None => String::new(),
    };
    Ok(Workspace { name, path, project_refs, schemes })
}

/// Builds the workspace at `workspace_path` from the text of its
/// `contents.xcworkspacedata` and the entries of its
/// `xcshareddata/xcschemes` directory: a parse error when the text is not
/// a well-formed XML document, else as `workspace_from_contents` builds it
/// from the document's root element.
pub fn workspace_from_text(
    workspace_path: &str,
    current_dir: &str,
    text: &str,
    scheme_entries: &Vec<String>,
    developer_dir: &str,
) -> (r: Result<Workspace, Error>)
    ensures
        xml_element_listing(text@) is None ==> (r matches Err(e) && e is Parse),
        xml_element_listing(text@) is Some && !listing_well_formed(xml_element_listing(text@)->0)
            ==> (r matches Err(e) && e is Parse),
        xml_element_listing(text@) is Some && listing_well_formed(xml_element_listing(text@)->0)
            ==> (r is Err <==> (xml_element_listing(text@)->0)[0].1 != "Workspace"@),
        xml_element_listing(text@) is Some && listing_well_formed(xml_element_listing(text@)->0)
            ==> (r matches Err(e) ==> e matches Error::BadWorkspace(m) && m@ == bad_root_message(
            (xml_element_listing(text@)->0)[0].1,
        )),
        xml_element_listing(text@) is Some && listing_well_formed(xml_element_listing(text@)->0)
            ==> (r matches Ok(ws) ==> exists|root: Element|
            element_listing(root, (xml_element_listing(text@)->0)[0].0) == xml_element_listing(
                text@,
            )->0 && #[trigger] workspace_built(
                ws,
                absolute_path_of(workspace_path@, current_dir@),
                root,
                scheme_entries@,
                developer_dir@,
            )),
{
    let root = match parse_element_tree(text) {
        Ok(e) => e,
        Err(m) => return Err(Error::Parse(m)),
    };
    let r = workspace_from_contents(workspace_path, current_dir, &root, scheme_entries, developer_dir);
    proof {
        let l = xml_element_listing(text@)->0;
        assert(element_listing(root, l[0].0)[0].1 == root.name@);
    }
    r
}

/// `ws` is the workspace at the absolute path `path` whose document root is
/// `root` and whose shared-schemes directory holds `scheme_entries`: its
/// name is the path's file stem, its projects are those the root's
/// children reference (relative to the directory containing the
/// workspace), in document order, and its schemes are the `.xcscheme`
/// stems among the entries, sorted.
pub open spec fn workspace_built(
    ws: Workspace,
    path: Seq<char>,
    root: Element,
    scheme_entries: Seq<String>,
    developer_dir: Seq<char>,
) -> bool {
    &&& ws.name@ == workspace_name(path)
    &&& ws.path@ == path
    &&& string_views(ws.project_refs@) == project_refs_in(
        root.children@,
        workspace_base(path),
        developer_dir,
    )
    &&& sorted(string_views(ws.schemes@))
    &&& string_views(ws.schemes@).to_multiset() == scheme_names_in(string_views(scheme_entries))
        .to_multiset()
}

/// Where the shared schemes of a project or workspace live:
/// `<path>/xcshareddata/xcschemes`.
pub open spec fn shared_schemes_dir_of(path: Seq<char>) -> Seq<char> {
    joined_path(path, "xcshareddata/xcschemes"@)
}

/// The directory holding the shared schemes of the project or workspace
/// at `path`.
pub fn shared_schemes_dir(path: &str) -> (r: String)
    ensures
        r@ == shared_schemes_dir_of(path@),
{
    join_path(path, "xcshareddata/xcschemes")
}

/// Where a shared scheme of a project is stored:
/// `<project>/xcshareddata/xcschemes/<name>.xcscheme`.
pub open spec fn scheme_file_path_of(project: Seq<char>, scheme_name: Seq<char>) -> Seq<char> {
    joined_path(project, "xcshareddata/xcschemes/"@ + scheme_name + ".xcscheme"@)
}

/// The path of the shared scheme file `scheme_name` of `project`.
pub fn scheme_file_path(project: &str, scheme_name: &str) -> (r: String)
    ensures
        r@ == scheme_file_path_of(project@, scheme_name@),
{
    let mut rest = "xcshareddata/xcschemes/".to_owned();
    let nc = chars_of(scheme_name);
    push_chars(&mut rest, &nc);
    let ext = chars_of(".xcscheme");
    push_chars(&mut rest, &ext);
    join_path(project, rest.as_str())
}

/// A text is among the scheme names that some project's entries give.
pub open spec fn named_by_some_project(found: Seq<Seq<Seq<char>>>, x: Seq<char>) -> bool {
    exists|i: int| 0 <= i < found.len() && #[trigger] scheme_names_in(found[i]).contains(x)
}

/// The texts of a list of lists of strings.
pub open spec fn nested_views(v: Seq<Vec<String>>) -> Seq<Seq<Seq<char>>> {
    v.map_values(|e: Vec<String>| string_views(e@))
}

/// `all` holds exactly the texts of `a` and those of `b`.
pub open spec fn is_union(all: Seq<Seq<char>>, a: Seq<Seq<char>>, b: Seq<Seq<char>>) -> bool {
    forall|x: Seq<char>| #[trigger] all.contains(x) <==> (a.contains(x) || b.contains(x))
}

/// `all` holds exactly the texts of `own` and the scheme names that the
/// entries in `found` give.
pub open spec fn is_merge(all: Seq<Seq<char>>, own: Seq<Seq<char>>, found: Seq<Seq<Seq<char>>>) -> bool {
    forall|x: Seq<char>|
        #[trigger] all.contains(x) <==> (own.contains(x) || named_by_some_project(found, x))
}

/// Adds each of `names` to the strictly sorted list `r`, skipping those
/// already there.
fn add_names(r: &mut Vec<String>, names: &Vec<String>)
    requires
        strictly_sorted(string_views(old(r)@)),
    ensures
        strictly_sorted(string_views(final(r)@)),
        forall|x: Seq<char>|
            string_views(final(r)@).contains(x) <==> (string_views(old(r)@).contains(x)
                || string_views(names@).contains(x)),
{
    let ghost r0 = string_views(r@);
    let ghost nv = string_views(names@);
    let mut k: usize = 0;
    while k < names.len()
        invariant
            k <= names.len(),
            r0 == string_views(old(r)@),
            nv == string_views(names@),
            strictly_sorted(string_views(r@)),
            is_union(string_views(r@), r0, nv.take(k as int)),
        decreases names.len() - k,
    {
        assert(nv[k as int] == names@[k as int]@);
        let ghost before = string_views(r@);
        insert_unique(r, names[k].clone());
        assert(nv.take(k + 1) =~= nv.take(k as int).push(nv[k as int]));
        assert forall|x: Seq<char>|
            #[trigger] string_views(r@).contains(x) <==> (r0.contains(x) || nv.take(k + 1).contains(x)) by {
            assert(before.contains(x) <==> (r0.contains(x) || nv.take(k as int).contains(x)));
            if x == nv[k as int] {
                assert(nv.take(k + 1)[k as int] == x);
            }
            if nv.take(k + 1).contains(x) && x != nv[k as int] {
                let t = choose|t: int| 0 <= t < k + 1 && #[trigger] nv.take(k + 1)[t] == x;
                assert(nv.take(k as int)[t] == x);
            }
            if nv.take(k as int).contains(x) {
                let t = choose|t: int| 0 <= t < k && #[trigger] nv.take(k as int)[t] == x;
                assert(nv.take(k + 1)[t] == x);
            }
        }
        assert(is_union(string_views(r@), r0, nv.take(k + 1)));
        k = k + 1;
    }
    assert(nv.take(names.len() as int) =~= nv);
}

/// Taking one more project's names into account.
proof fn lemma_named_step(found: Seq<Seq<Seq<char>>>, j: int, x: Seq<char>)
    requires
        0 <= j < found.len(),
    ensures
        named_by_some_project(found.take(j + 1), x) <==> (named_by_some_project(found.take(j), x)
            || scheme_names_in(found[j]).contains(x)),
{
    let a = found.take(j);
    let b = found.take(j + 1);
    if named_by_some_project(b, x) {
        let t = choose|t: int| 0 <= t < b.len() && #[trigger] scheme_names_in(b[t]).contains(x);
        if t < j {
            assert(a[t] == b[t]);
            assert(scheme_names_in(a[t]).contains(x));
        } else {
            assert(b[t] == found[j]);
        }
    }
    if named_by_some_project(a, x) {
        let t = choose|t: int| 0 <= t < a.len() && #[trigger] scheme_names_in(a[t]).contains(x);
        assert(b[t] == a[t]);
        assert(scheme_names_in(b[t]).contains(x));
    }
    if scheme_names_in(found[j]).contains(x) {
        assert(b[j] == found[j]);
        assert(scheme_names_in(b[j]).contains(x));
    }
}

impl Workspace {
    /// The schemes `xcodebuild -list -workspace` shows: the workspace's own
    /// shared schemes together with those of every member project, without
    /// repeats, sorted. `project_scheme_entries[i]` holds the entries found in
    /// the shared-schemes directory of a member project (none where it could
    /// not be read).
    pub fn merged_schemes(&self, project_scheme_entries: &Vec<Vec<String>>) -> (r: Vec<String>)
        ensures
            crate::order::strictly_sorted(string_views(r@)),
            forall|x: Seq<char>|
                string_views(r@).contains(x) <==> (string_views(self.schemes@).contains(x)
                    || named_by_some_project(nested_views(project_scheme_entries@), x)),
    {
        let ghost own = string_views(self.schemes@);
        let ghost found = nested_views(project_scheme_entries@);
        let mut r: Vec<String> = Vec::new();
        add_names(&mut r, &self.schemes);
        assert forall|x: Seq<char>| #[trigger] string_views(r@).contains(x) <==> (own.contains(x)
            || named_by_some_project(found.take(0), x)) by {
            if named_by_some_project(found.take(0), x) {
                let t = choose|t: int|
                    0 <= t < found.take(0).len() && #[trigger] scheme_names_in(found.take(0)[t]).contains(x);
            }
        }
        let mut j: usize = 0;
        while j < project_scheme_entries.len()
            invariant
                j <= project_scheme_entries.len(),
                own == string_views(self.schemes@),
                found == nested_views(project_scheme_entries@),
                strictly_sorted(string_views(r@)),
                is_merge(string_views(r@), own, found.take(j as int)),
            decreases project_scheme_entries.len() - j,
        {
            let names = shared_scheme_names(&project_scheme_entries[j]);
            let ghost here = scheme_names_in(found[j as int]);
            assert(found[j as int] == string_views(project_scheme_entries@[j as int]@));
            proof {
                string_views(names@).to_multiset_ensures();
                here.to_multiset_ensures();
            }
            let ghost r0 = string_views(r@);
            add_names(&mut r, &names);
            assert forall|x: Seq<char>|
                #[trigger] string_views(r@).contains(x) <==> (own.contains(x) || named_by_some_project(
                    found.take(j + 1),
                    x,
                )) by {
                let nv = string_views(names@);
                assert(r0.contains(x) <==> (own.contains(x) || named_by_some_project(
                    found.take(j as int),
                    x,
                )));
                assert(nv.contains(x) <==> nv.to_multiset().count(x) > 0);
                assert(here.contains(x) <==> here.to_multiset().count(x) > 0);
                lemma_named_step(found, j as int, x);
            }
            assert(is_merge(string_views(r@), own, found.take(j + 1)));
            j = j + 1;
        }
        assert(found.take(project_scheme_entries.len() as int) =~= found);
        assert(is_merge(string_views(r@), own, found));
        r
    }

    /// The member project that owns the shared scheme `scheme_name`: the
    /// first, in declaration order, whose
    /// `xcshareddata/xcschemes/<name>.xcscheme` exists. Whether a file
    /// exists is the disk's answer; the choice among the answers is
    /// `first_project_with_scheme`'s.
    pub fn project_for_scheme(&self, scheme_name: &str) -> (r: Option<&str>)
        ensures
            self.project_refs@.len() == 0 ==> r is None,
            r matches Some(p) ==> exists|i: int|
                0 <= i < self.project_refs@.len() && p@ == #[trigger] self.project_refs@[i]@,
    {
        let mut present: Vec<bool> = Vec::new();
        let mut i: usize = 0;
        while i < self.project_refs.len()
            invariant
                i <= self.project_refs.len(),
                present@.len() == i,
            decreases self.project_refs.len() - i,
        {
            let candidate = scheme_file_path(self.project_refs[i].as_str(), scheme_name);
            present.push(path_exists(candidate.as_str()));
            i = i + 1;
        }
        self.first_project_with_scheme(&present)
    }

    /// The member project that owns a shared scheme, given for each member
    /// project (in order) whether the scheme's file is present there: the
    /// first project for which it is.
    pub fn first_project_with_scheme(&self, present: &Vec<bool>) -> (r: Option<&str>)
        ensures
            r matches Some(p) ==> exists|i: int|
                0 <= i < self.project_refs.len() && i < present.len() && present@[i]
                    && p@ == self.project_refs@[i]@ && forall|j: int|
                    0 <= j < i ==> !#[trigger] present@[j],
            r is None ==> forall|i: int|
                0 <= i < self.project_refs.len() && i < present.len() ==> !#[trigger] present@[i],
    {
        let mut i: usize = 0;
        while i < self.project_refs.len() && i < present.len()
            invariant
                i <= self.project_refs.len(),
                i <= present.len(),
                forall|j: int| 0 <= j < i ==> !#[trigger] present@[j],
            decreases self.project_refs.len() - i,
        {
            if present[i] {
                return Some(self.project_refs[i].as_str());
            }
            i = i + 1;
        }
        None
    }
}

} // verus!
