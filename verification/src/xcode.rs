//! What the active Xcode installation is: its Developer directory and the
//! versions recorded in its `version.plist`.
//!
//! Finding the directory and reading the file are the caller's work; this
//! module decides from what they found.

use vstd::prelude::*;

use crate::path::{join_path, joined_path, parent_of, path_parent};

use crate::text::{
    chars_of, contains_text, find, first_occurrence, lemma_first_occurrence_at,
    lemma_first_occurrence_found, occurs_at, push_char, push_chars, string_from, sub_chars,
};

verus! {

/// Snapshot of the active Xcode toolchain.
#[derive(Debug, Clone)]
pub struct ActiveInstall {
    /// Absolute path of the `Developer` directory.
    pub developer_dir: String,
    /// `CFBundleShortVersionString` from `version.plist` (e.g. `26.0.1`);
    /// empty when the plist cannot be read.
    pub short_version: String,
    /// `ProductBuildVersion` from `version.plist` (e.g. `17A400`); empty
    /// when the plist cannot be read.
    pub build_version: String,
}

/// `c` is an ASCII decimal digit.
pub open spec fn is_ascii_digit(c: char) -> bool {
    '0' <= c && c <= '9'
}

/// The number written by a sequence of decimal digits.
pub open spec fn digits_value(s: Seq<char>) -> nat
    decreases s.len(),
{
    if s.len() == 0 {
        0
    } else {
        digits_value(s.drop_last()) * 10 + (s.last() as int - '0' as int) as nat
    }
}

/// How `u32` reads a decimal string: an optional `+`, then one or more
/// ASCII digits, of a value that fits in 32 bits.
pub open spec fn parse_u32_spec(s: Seq<char>) -> Option<u32> {
    let digits = if s.len() > 0 && s[0] == '+' {
        s.drop_first()
    } else {
        s
    };
    if digits.len() > 0 && (forall|i: int| 0 <= i < digits.len() ==> is_ascii_digit(#[trigger] digits[i]))
        && digits_value(digits) <= u32::MAX {
        Some(digits_value(digits) as u32)
    } else {
        None
    }
}

/// `str::parse::<u32>`: the documentation of `u32::from_str_radix` says the
/// string is an optional `+` sign followed by digits, and that a value out
/// of range is an error.
#[verifier::external_body]
fn parse_u32(s: &str) -> (r: Option<u32>)
    ensures
        r == parse_u32_spec(s@),
{
    s.parse::<u32>().ok()
}

/// The text before the first `.` (all of it when there is none), as
/// `split('.').next()` gives it.
pub open spec fn leading_component(s: Seq<char>) -> Seq<char> {
    match first_occurrence(s, seq!['.']) {
        Some(i) => s.subrange(0, i),
        None => s,
    }
}

/// The major version read from a short version string: its leading
/// component as a `u32`, or 0 when that does not parse.
pub open spec fn major_version_of(short_version: Seq<char>) -> u32 {
    match parse_u32_spec(leading_component(short_version)) {
        Some(n) => n,
        None => 0,
    }
}

/// What stands for a missing version.
pub open spec fn unknown_text() -> Seq<char> {
    "Unknown"@
}

/// `<short>-<build>`, or `Unknown` when either is empty.
pub open spec fn product_build_version_of(short: Seq<char>, build: Seq<char>) -> Seq<char> {
    if short.len() == 0 || build.len() == 0 {
        unknown_text()
    } else {
        short + seq!['-'] + build
    }
}

impl ActiveInstall {
    /// Parsed major version (`26` for Xcode 26.0.1). Returns 0 when the
    /// short version is empty or its leading component is not a number.
    pub fn major_version(&self) -> (r: u32)
        ensures
            r == major_version_of(self.short_version@),
    {
        let v = chars_of(self.short_version.as_str());
        let dot: Vec<char> = vec!['.'];
        assert(dot@ =~= seq!['.']);
        let head = match find(&v, &dot) {
            Some(i) => {
                proof {
                    lemma_first_occurrence_found(v@, dot@, 0);
                }
                string_from(&v, 0, i)
            },
            None => string_from(&v, 0, v.len()),
        };
        assert(v@.subrange(0, v@.len() as int) =~= v@);
        match parse_u32(head.as_str()) {
            Some(n) => n,
            None => 0,
        }
    }

    /// Combined `<short>-<build>` string, the form in which xcodebuild
    /// reports `XCODE_PRODUCT_BUILD_VERSION`; `"Unknown"` when either
    /// component is missing.
    pub fn product_build_version(&self) -> (r: String)
        ensures
            r@ == product_build_version_of(self.short_version@, self.build_version@),
    {
        if self.short_version.as_str().is_empty() || self.build_version.as_str().is_empty() {
            "Unknown".to_owned()
        } else {
            let mut r = self.short_version.clone();
            push_char(&mut r, '-');
            let b = chars_of(self.build_version.as_str());
            push_chars(&mut r, &b);
            r
        }
    }
}

/// An empty short version has major version 0.
pub proof fn lemma_major_version_of_empty()
    ensures
        major_version_of(Seq::empty()) == 0,
{
    let e = Seq::<char>::empty();
    assert(first_occurrence(e, seq!['.']) is None);
    assert(leading_component(e) =~= e);
}

/// The major version is the number before the first `.`: for a leading
/// run of ASCII digits that fits in 32 bits, whatever follows the dot.
pub proof fn lemma_major_version_of_leading_number(head: Seq<char>, rest: Seq<char>)
    requires
        head.len() > 0,
        forall|i: int| 0 <= i < head.len() ==> is_ascii_digit(#[trigger] head[i]),
        digits_value(head) <= u32::MAX,
    ensures
        major_version_of(head + seq!['.'] + rest) == digits_value(head),
        major_version_of(head) == digits_value(head),
{
    let s = head + seq!['.'] + rest;
    let dot = seq!['.'];
    let n: int = head.len() as int;
    assert(s.subrange(n, n + 1) =~= dot);
    assert forall|j: int| 0 <= j < head.len() implies !occurs_at(s, dot, j) by {
        if occurs_at(s, dot, j) {
            assert(s.subrange(j, j + 1)[0] == s[j]);
            assert(s[j] == head[j]);
        }
    }
    lemma_first_occurrence_at(s, dot, 0, head.len() as int);
    assert(s.subrange(0, head.len() as int) =~= head);
    assert(head[0] != '+');
    assert forall|j: int| 0 <= j implies !occurs_at(head, dot, j) by {
        if occurs_at(head, dot, j) {
            assert(head.subrange(j, j + 1)[0] == head[j]);
        }
    }
    lemma_first_occurrence_found(head, dot, 0);
}

/// The value of the first `<string>` element after `<key>KEY</key>`, as the
/// scraper reads it: find the key, then, in the text after it, the first
/// `<string>` and the first `</string>`; the value lies between them, and
/// there is none when the closing tag does not come after the opening one
/// or the value would be empty.
pub open spec fn plist_string_value(xml: Seq<char>, key: Seq<char>) -> Option<Seq<char>> {
    let needle = "<key>"@ + key + "</key>"@;
    match first_occurrence(xml, needle) {
        None => None,
        Some(start) => {
            let after = xml.subrange(start + needle.len(), xml.len() as int);
            match (first_occurrence(after, "<string>"@), first_occurrence(after, "</string>"@)) {
                (Some(open), Some(close)) => if close <= open + "<string>"@.len() {
                    None
                } else {
                    Some(after.subrange(open + "<string>"@.len(), close))
                },
                _ => None,
            }
        },
    }
}

/// Cheap XML scrape of a `version.plist`, which emits
/// `<key>K</key><string>V</string>` once per key.
pub fn extract_plist_string(xml: &str, key: &str) -> (r: Option<String>)
    ensures
        r matches Some(v) ==> plist_string_value(xml@, key@) == Some(v@),
        r is None ==> plist_string_value(xml@, key@) is None,
{
    let x = chars_of(xml);
    let mut needle = chars_of("<key>");
    let mut k = chars_of(key);
    let mut close_key = chars_of("</key>");
    needle.append(&mut k);
    needle.append(&mut close_key);
    assert(needle@ =~= "<key>"@ + key@ + "</key>"@);
    let start: usize = match find(&x, &needle) {
        Some(i) => i,
        None => return None,
    };
    proof {
        lemma_first_occurrence_found(x@, needle@, 0);
    }
    let nl: usize = needle.len();
    let xl: usize = x.len();
    assert(start + nl <= xl);
    let after = sub_chars(&x, start + nl, xl);
    let open_tag = chars_of("<string>");
    let close_tag = chars_of("</string>");
    let open: usize = match find(&after, &open_tag) {
        Some(i) => i,
        None => return None,
    };
    let close: usize = match find(&after, &close_tag) {
        Some(i) => i,
        None => return None,
    };
    proof {
        lemma_first_occurrence_found(after@, open_tag@, 0);
        lemma_first_occurrence_found(after@, close_tag@, 0);
    }
    if close <= open + open_tag.len() {
        None
    } else {
        Some(string_from(&after, open + open_tag.len(), close))
    }
}

/// The text written for a key and its value in a `version.plist`.
pub open spec fn plist_entry_text(key: Seq<char>, value: Seq<char>) -> Seq<char> {
    "<key>"@ + key + "</key>"@ + "<string>"@ + value + "</string>"@
}

/// A value written as `<key>K</key><string>V</string>` is read back as `V`,
/// for any non-empty `V` that does not itself contain `</string>`.
pub proof fn lemma_plist_value_reads_back(key: Seq<char>, value: Seq<char>)
    requires
        value.len() > 0,
        !contains_text(value, "</string>"@),
    ensures
        plist_string_value(plist_entry_text(key, value), key) == Some(value),
{
    reveal_strlit("<string>");
    reveal_strlit("</string>");
    let open_tag = "<string>"@;
    let close_tag = "</string>"@;
    let xml = plist_entry_text(key, value);
    let needle = "<key>"@ + key + "</key>"@;
    assert(xml.subrange(0, needle.len() as int) =~= needle);
    lemma_first_occurrence_at(xml, needle, 0, 0);
    let after = xml.subrange(needle.len() as int, xml.len() as int);
    assert(after =~= open_tag + value + close_tag);
    assert(after.subrange(0, 8) =~= open_tag);
    lemma_first_occurrence_at(after, open_tag, 0, 0);
    let q: int = value.len() as int + 8;
    assert(after.subrange(q, q + 9) =~= close_tag);
    assert forall|j: int| 0 <= j < q implies !occurs_at(after, close_tag, j) by {
        if occurs_at(after, close_tag, j) {
            let w = after.subrange(j, j + 9);
            assert(w[0] == after[j]);
            assert(w[0] == '<');
            if j < 8 {
                assert(j == 0);
                assert(w[1] == after[1]);
                assert(false);
            } else if j + 9 <= q {
                assert(value.subrange(j - 8, j + 1) =~= w);
                assert(occurs_at(value, close_tag, j - 8));
                assert(false);
            } else {
                let d: int = q - j;
                assert(1 <= d <= 8);
                assert(w[d] == after[q]);
                assert(after[q] == '<');
                assert(false);
            }
        }
    }
    lemma_first_occurrence_at(after, close_tag, 0, q);
    assert(after.subrange(8, q) =~= value);
}

/// The value of `key` in a plist's text, or the empty text when it has none.
pub open spec fn plist_value_or_empty(xml: Seq<char>, key: Seq<char>) -> Seq<char> {
    match plist_string_value(xml, key) {
        Some(v) => v,
        None => Seq::empty(),
    }
}

/// Where the `version.plist` of the install with the given Developer
/// directory is: next to that directory, in its parent.
pub open spec fn version_plist_path_of(developer_dir: Seq<char>) -> Option<Seq<char>> {
    match path_parent(developer_dir) {
        Some(p) => Some(joined_path(p, "version.plist"@)),
        None => None,
    }
}

/// The path of the `version.plist` that records the versions of the
/// install with the given Developer directory; none when the directory
/// has no parent.
pub fn version_plist_path(developer_dir: &str) -> (r: Option<String>)
    ensures
        r matches Some(p) ==> version_plist_path_of(developer_dir@) == Some(p@),
        r is None ==> version_plist_path_of(developer_dir@) is None,
{
    match parent_of(developer_dir) {
        Some(p) => Some(join_path(p.as_str(), "version.plist")),
        None => None,
    }
}

/// The short and build versions recorded in a `version.plist`, given its
/// text when it could be read; empty where a value is missing.
pub fn version_strings(plist: Option<&str>) -> (r: (String, String))
    ensures
        plist is None ==> r.0@ == Seq::<char>::empty() && r.1@ == Seq::<char>::empty(),
        plist matches Some(xml) ==> r.0@ == plist_value_or_empty(xml@, "CFBundleShortVersionString"@)
            && r.1@ == plist_value_or_empty(xml@, "ProductBuildVersion"@),
{
    match plist {
        None => (String::new(), String::new()),
        Some(xml) => {
            let short = match extract_plist_string(xml, "CFBundleShortVersionString") {
                Some(v) => v,
                None => String::new(),
            };
            let build = match extract_plist_string(xml, "ProductBuildVersion") {
                Some(v) => v,
                None => String::new(),
            };
            (short, build)
        },
    }
}

/// The install found at `developer_dir`, with the versions read from the
/// text of its `version.plist` when that could be read.
pub fn active_install(developer_dir: String, version_plist: Option<&str>) -> (r: ActiveInstall)
    ensures
        r.developer_dir@ == developer_dir@,
        version_plist is None ==> r.short_version@ == Seq::<char>::empty()
            && r.build_version@ == Seq::<char>::empty(),
        version_plist matches Some(xml) ==> r.short_version@ == plist_value_or_empty(
            xml@,
            "CFBundleShortVersionString"@,
        ) && r.build_version@ == plist_value_or_empty(xml@, "ProductBuildVersion"@),
{
    let (short_version, build_version) = version_strings(version_plist);
    ActiveInstall { developer_dir, short_version, build_version }
}

/// What `str::trim` gives for a text: the text without its leading and
/// trailing Unicode white space.
pub uninterp spec fn trimmed(s: Seq<char>) -> Seq<char>;

/// `str::trim`, which removes leading and trailing white space (the Unicode
/// `White_Space` property); the result is named, not spelled out.
#[verifier::external_body]
fn trim(s: &str) -> (r: String)
    ensures
        r@ == trimmed(s@),
{
    s.trim().to_string()
}

/// The Developer directory used when nothing else names one.
pub open spec fn default_developer_dir() -> Seq<char> {
    "/Applications/Xcode.app/Contents/Developer"@
}

/// The active Developer directory: `DEVELOPER_DIR` when it is set and not
/// empty, else what `xcode-select -p` printed (trimmed) when it succeeded
/// and printed something, else the standard `/Applications/Xcode.app` path.
pub open spec fn developer_dir_choice(env_value: Option<Seq<char>>, select_output: Option<Seq<char>>) -> Seq<char> {
    if env_value matches Some(v) && v.len() > 0 {
        env_value->0
    } else if select_output matches Some(out) && trimmed(out).len() > 0 {
        trimmed(select_output->0)
    } else {
        default_developer_dir()
    }
}

/// Chooses the Developer directory from the value of `DEVELOPER_DIR` (when
/// set) and the output of a successful `xcode-select -p` (when there was
/// one).
pub fn choose_developer_dir(env_value: Option<&str>, select_output: Option<&str>) -> (r: String)
    ensures
        r@ == developer_dir_choice(
            match env_value { Some(v) => Some(v@), None => None },
            match select_output { Some(o) => Some(o@), None => None },
        ),
{
    if let Some(v) = env_value {
        if !v.is_empty() {
            return v.to_owned();
        }
    }
    if let Some(out) = select_output {
        let t = trim(out);
        if !t.as_str().is_empty() {
            return t;
        }
    }
    "/Applications/Xcode.app/Contents/Developer".to_owned()
}

} // verus!
