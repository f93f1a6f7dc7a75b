//! The reports the command line prints, as text: `list` for projects and
//! workspaces (plain and JSON), `build-settings` (plain and JSON) and
//! `xcode-version` (plain and JSON). Each ends with the newline that
//! printing it as a line adds.

use vstd::prelude::*;

use crate::json::{
    json_array, json_map, json_quote, json_string, json_string_array, json_string_map, pair_views,
};
use crate::text::{push_char, push_str, string_views};
use crate::xcode::{digits_value, is_ascii_digit, major_version_of, unknown_text, ActiveInstall};

verus! {

/// The decimal digit for `n` (`0 <= n < 10`).
pub open spec fn decimal_digit(n: int) -> char {
    seq!['0', '1', '2', '3', '4', '5', '6', '7', '8', '9'][n]
}

/// The decimal numeral of `n`, without leading zeros.
pub open spec fn decimal_text(n: nat) -> Seq<char>
    decreases n,
{
    if n < 10 {
        seq![decimal_digit(n as int)]
    } else {
        decimal_text(n / 10) + seq![decimal_digit((n % 10) as int)]
    }
}

/// Each decimal digit is the ASCII digit of its value.
proof fn lemma_decimal_digit(k: int)
    requires
        0 <= k < 10,
    ensures
        is_ascii_digit(decimal_digit(k)),
        decimal_digit(k) as int - '0' as int == k,
{
    let t = seq!['0', '1', '2', '3', '4', '5', '6', '7', '8', '9'];
    assert(decimal_digit(k) == t[k]);
    if k == 0 {
    } else if k == 1 {
    } else if k == 2 {
    } else if k == 3 {
    } else if k == 4 {
    } else if k == 5 {
    } else if k == 6 {
    } else if k == 7 {
    } else if k == 8 {
    } else {
    }
}

/// `decimal_text(n)` is the decimal numeral of `n`: it is made of ASCII
/// digits only, it reads back as `n`, and it has no leading zero unless
/// `n` is zero.
pub proof fn lemma_decimal_text_reads_back(n: nat)
    ensures
        decimal_text(n).len() > 0,
        forall|i: int| 0 <= i < decimal_text(n).len() ==> is_ascii_digit(#[trigger] decimal_text(n)[i]),
        digits_value(decimal_text(n)) == n,
        n > 0 ==> decimal_text(n)[0] != '0',
    decreases n,
{
    let s = decimal_text(n);
    if n < 10 {
        lemma_decimal_digit(n as int);
        assert(s.drop_last() =~= Seq::<char>::empty());
        assert(digits_value(s.drop_last()) == 0);
        assert(s.last() == decimal_digit(n as int));
        assert(digits_value(s) == digits_value(s.drop_last()) * 10 + (s.last() as int - '0' as int) as nat);
    } else {
        let q = (n / 10) as nat;
        let r = (n % 10) as int;
        lemma_decimal_text_reads_back(q);
        lemma_decimal_digit(r);
        let head = decimal_text(q);
        assert(s == head + seq![decimal_digit(r)]);
        assert(s.drop_last() =~= head);
        assert(s.last() == decimal_digit(r));
        assert(digits_value(s) == digits_value(head) * 10 + r);
        assert(q * 10 + r == n);
        assert forall|i: int| 0 <= i < s.len() implies is_ascii_digit(#[trigger] s[i]) by {
            if i < head.len() {
                assert(s[i] == head[i]);
            }
        }
        assert(s[0] == head[0]);
    }
}

/// Appends the decimal numeral of `n`.
pub fn push_decimal(out: &mut String, n: u32)
    ensures
        final(out)@ == old(out)@ + decimal_text(n as nat),
    decreases n,
{
    if n >= 10 {
        push_decimal(out, n / 10);
    }
    let table: [char; 10] = ['0', '1', '2', '3', '4', '5', '6', '7', '8', '9'];
    assert(table@ =~= seq!['0', '1', '2', '3', '4', '5', '6', '7', '8', '9']);
    push_char(out, table[(n % 10) as usize]);
    assert(out@ =~= old(out)@ + decimal_text(n as nat));
}

/// One item line of a list section: eight spaces, the item, a newline.
pub open spec fn item_lines(items: Seq<Seq<char>>) -> Seq<char>
    decreases items.len(),
{
    if items.len() == 0 {
        Seq::empty()
    } else {
        item_lines(items.drop_last()) + "        "@ + items.last() + seq!['\n']
    }
}

/// The item lines of two runs of items are those of the first run
/// followed by those of the second: each item gets its own line, in order.
pub proof fn lemma_item_lines_concat(a: Seq<Seq<char>>, b: Seq<Seq<char>>)
    ensures
        item_lines(a + b) == item_lines(a) + item_lines(b),
    decreases b.len(),
{
    if b.len() == 0 {
        assert(a + b =~= a);
        assert(item_lines(a) + item_lines(b) =~= item_lines(a));
    } else {
        assert((a + b).drop_last() =~= a + b.drop_last());
        assert((a + b).last() == b.last());
        lemma_item_lines_concat(a, b.drop_last());
        assert(item_lines(a + b) =~= item_lines(a) + item_lines(b));
    }
}

/// The item line of one item: eight spaces, the item and a newline.
pub proof fn lemma_item_lines_single(x: Seq<char>)
    ensures
        item_lines(seq![x]) == "        "@ + x + seq!['\n'],
{
    let one = seq![x];
    assert(one.drop_last() =~= Seq::<Seq<char>>::empty());
    assert(item_lines(one.drop_last()) =~= Seq::<char>::empty());
    assert(one.last() == x);
    assert(item_lines(one) =~= "        "@ + x + seq!['\n']);
}

/// A titled section of the plain `list` report: `    Title:` followed by
/// one line per item, or `        (none)` when there are none.
pub open spec fn section_text(title: Seq<char>, items: Seq<Seq<char>>) -> Seq<char> {
    "    "@ + title + seq![':', '\n'] + if items.len() == 0 {
        "        (none)"@ + seq!['\n']
    } else {
        item_lines(items)
    }
}

/// Appends a titled section.
fn push_section(out: &mut String, title: &str, items: &[String])
    ensures
        final(out)@ == old(out)@ + section_text(title@, string_views(items@)),
{
    let ghost start = out@;
    push_str(out, "    ");
    push_str(out, title);
    push_char(out, ':');
    push_char(out, '\n');
    let ghost head = out@;
    let ghost views = string_views(items@);
    if items.len() == 0 {
        push_str(out, "        (none)");
        push_char(out, '\n');
    } else {
        let mut i: usize = 0;
        assert(views.take(0) =~= Seq::<Seq<char>>::empty());
        while i < items.len()
            invariant
                i <= items.len(),
                views == string_views(items@),
                out@ == head + item_lines(views.take(i as int)),
            decreases items.len() - i,
        {
            assert(views.take(i + 1).drop_last() =~= views.take(i as int));
            assert(views.take(i + 1).last() == items@[i as int]@);
            push_str(out, "        ");
            push_str(out, items[i].as_str());
            push_char(out, '\n');
            assert(out@ =~= head + item_lines(views.take(i + 1)));
            i = i + 1;
        }
        assert(views.take(items.len() as int) =~= views);
    }
    assert(out@ =~= start + section_text(title@, views));
}

/// The plain `list` report of a project.
pub open spec fn project_text(
    name: Seq<char>,
    targets: Seq<Seq<char>>,
    configurations: Seq<Seq<char>>,
    schemes: Seq<Seq<char>>,
) -> Seq<char> {
    "Information about project \""@ + name + "\":"@ + seq!['\n'] + section_text("Targets"@, targets)
        + seq!['\n'] + section_text("Build Configurations"@, configurations) + seq!['\n']
        + section_text("Schemes"@, schemes)
}

/// The plain `list` report of a project: its targets, build
/// configurations and shared schemes, each listed or marked `(none)`.
pub fn project_text_report(
    name: &str,
    targets: &[String],
    configurations: &[String],
    schemes: &[String],
) -> (r: String)
    ensures
        r@ == project_text(
            name@,
            string_views(targets@),
            string_views(configurations@),
            string_views(schemes@),
        ),
{
    let mut out = String::new();
    push_str(&mut out, "Information about project \"");
    push_str(&mut out, name);
    push_str(&mut out, "\":");
    push_char(&mut out, '\n');
    push_section(&mut out, "Targets", targets);
    push_char(&mut out, '\n');
    push_section(&mut out, "Build Configurations", configurations);
    push_char(&mut out, '\n');
    push_section(&mut out, "Schemes", schemes);
    assert(out@ =~= project_text(
        name@,
        string_views(targets@),
        string_views(configurations@),
        string_views(schemes@),
    ));
    out
}

/// The plain `list` report of a workspace.
pub open spec fn workspace_text(name: Seq<char>, schemes: Seq<Seq<char>>) -> Seq<char> {
    "Information about workspace \""@ + name + "\":"@ + seq!['\n'] + section_text(
        "Schemes"@,
        schemes,
    )
}

/// The plain `list` report of a workspace: its (merged) schemes.
pub fn workspace_text_report(name: &str, schemes: &[String]) -> (r: String)
    ensures
        r@ == workspace_text(name@, string_views(schemes@)),
{
    let mut out = String::new();
    push_str(&mut out, "Information about workspace \"");
    push_str(&mut out, name);
    push_str(&mut out, "\":");
    push_char(&mut out, '\n');
    push_section(&mut out, "Schemes", schemes);
    assert(out@ =~= workspace_text(name@, string_views(schemes@)));
    out
}

/// The JSON `list` report of a project, in the shape of
/// `xcodebuild -list -json`.
pub open spec fn project_json(
    name: Seq<char>,
    targets: Seq<Seq<char>>,
    configurations: Seq<Seq<char>>,
    schemes: Seq<Seq<char>>,
) -> Seq<char> {
    "{"@ + seq!['\n'] + "  \"project\": {"@ + seq!['\n'] + "    \"configurations\": "@ + json_array(
        configurations,
    ) + seq![',', '\n'] + "    \"name\": "@ + json_quote(name) + seq![',', '\n']
        + "    \"schemes\": "@ + json_array(schemes) + seq![',', '\n'] + "    \"targets\": "@
        + json_array(targets) + seq!['\n'] + "  }"@ + seq!['\n'] + "}"@ + seq!['\n']
}

/// The JSON `list` report of a project.
pub fn project_json_report(
    name: &str,
    targets: &[String],
    configurations: &[String],
    schemes: &[String],
) -> (r: String)
    ensures
        r@ == project_json(
            name@,
            string_views(targets@),
            string_views(configurations@),
            string_views(schemes@),
        ),
{
    let mut out = String::new();
    push_str(&mut out, "{");
    push_char(&mut out, '\n');
    push_str(&mut out, "  \"project\": {");
    push_char(&mut out, '\n');
    push_str(&mut out, "    \"configurations\": ");
    let c = json_string_array(configurations);
    push_str(&mut out, c.as_str());
    push_char(&mut out, ',');
    push_char(&mut out, '\n');
    push_str(&mut out, "    \"name\": ");
    let n = json_string(name);
    push_str(&mut out, n.as_str());
    push_char(&mut out, ',');
    push_char(&mut out, '\n');
    push_str(&mut out, "    \"schemes\": ");
    let s = json_string_array(schemes);
    push_str(&mut out, s.as_str());
    push_char(&mut out, ',');
    push_char(&mut out, '\n');
    push_str(&mut out, "    \"targets\": ");
    let t = json_string_array(targets);
    push_str(&mut out, t.as_str());
    push_char(&mut out, '\n');
    push_str(&mut out, "  }");
    push_char(&mut out, '\n');
    push_str(&mut out, "}");
    push_char(&mut out, '\n');
    assert(out@ =~= project_json(
        name@,
        string_views(targets@),
        string_views(configurations@),
        string_views(schemes@),
    ));
    out
}

/// The JSON `list` report of a workspace.
pub open spec fn workspace_json(name: Seq<char>, schemes: Seq<Seq<char>>) -> Seq<char> {
    "{"@ + seq!['\n'] + "  \"workspace\": {"@ + seq!['\n'] + "    \"name\": "@ + json_quote(name)
        + seq![',', '\n'] + "    \"schemes\": "@ + json_array(schemes) + seq!['\n'] + "  }"@
        + seq!['\n'] + "}"@ + seq!['\n']
}

/// The JSON `list` report of a workspace.
pub fn workspace_json_report(name: &str, schemes: &[String]) -> (r: String)
    ensures
        r@ == workspace_json(name@, string_views(schemes@)),
{
    let mut out = String::new();
    push_str(&mut out, "{");
    push_char(&mut out, '\n');
    push_str(&mut out, "  \"workspace\": {");
    push_char(&mut out, '\n');
    push_str(&mut out, "    \"name\": ");
    let n = json_string(name);
    push_str(&mut out, n.as_str());
    push_char(&mut out, ',');
    push_char(&mut out, '\n');
    push_str(&mut out, "    \"schemes\": ");
    let s = json_string_array(schemes);
    push_str(&mut out, s.as_str());
    push_char(&mut out, '\n');
    push_str(&mut out, "  }");
    push_char(&mut out, '\n');
    push_str(&mut out, "}");
    push_char(&mut out, '\n');
    assert(out@ =~= workspace_json(name@, string_views(schemes@)));
    out
}

/// A version, or `Unknown` when it is empty.
pub open spec fn or_unknown(v: Seq<char>) -> Seq<char> {
    if v.len() == 0 {
        unknown_text()
    } else {
        v
    }
}

/// The plain `xcode-version` report, as `xcrun xcodebuild -version` prints it.
pub open spec fn xcode_version_text(short: Seq<char>, build: Seq<char>) -> Seq<char> {
    "Xcode "@ + or_unknown(short) + seq!['\n'] + "Build version "@ + or_unknown(build) + seq!['\n']
}

/// The JSON `xcode-version` report.
pub open spec fn xcode_version_json(dev: Seq<char>, short: Seq<char>, build: Seq<char>, major: u32) -> Seq<char> {
    "{"@ + seq!['\n'] + "  \"developerDir\": "@ + json_quote(dev) + seq![',', '\n']
        + "  \"shortVersion\": "@ + json_quote(short) + seq![',', '\n'] + "  \"buildVersion\": "@
        + json_quote(build) + seq![',', '\n'] + "  \"majorVersion\": "@ + decimal_text(
        major as nat,
    ) + seq!['\n'] + "}"@ + seq!['\n']
}

/// The `xcode-version` report of an install: JSON
/// `{developerDir, shortVersion, buildVersion, majorVersion}` when `json`,
/// else the two lines `Xcode <short>` and `Build version <build>`, with
/// `Unknown` for a missing version.
pub fn xcode_version_report(info: &ActiveInstall, json: bool) -> (r: String)
    ensures
        json ==> r@ == xcode_version_json(
            info.developer_dir@,
            info.short_version@,
            info.build_version@,
            major_version_of(info.short_version@),
        ),
        !json ==> r@ == xcode_version_text(info.short_version@, info.build_version@),
{
    let mut out = String::new();
    if json {
        push_str(&mut out, "{");
        push_char(&mut out, '\n');
        push_str(&mut out, "  \"developerDir\": ");
        let d = json_string(info.developer_dir.as_str());
        push_str(&mut out, d.as_str());
        push_char(&mut out, ',');
        push_char(&mut out, '\n');
        push_str(&mut out, "  \"shortVersion\": ");
        let s = json_string(info.short_version.as_str());
        push_str(&mut out, s.as_str());
        push_char(&mut out, ',');
        push_char(&mut out, '\n');
        push_str(&mut out, "  \"buildVersion\": ");
        let b = json_string(info.build_version.as_str());
        push_str(&mut out, b.as_str());
        push_char(&mut out, ',');
        push_char(&mut out, '\n');
        push_str(&mut out, "  \"majorVersion\": ");
        push_decimal(&mut out, info.major_version());
        push_char(&mut out, '\n');
        push_str(&mut out, "}");
        push_char(&mut out, '\n');
        assert(out@ =~= xcode_version_json(
            info.developer_dir@,
            info.short_version@,
            info.build_version@,
            major_version_of(info.short_version@),
        ));
    } else {
        push_str(&mut out, "Xcode ");
        if info.short_version.as_str().is_empty() {
            push_str(&mut out, "Unknown");
        } else {
            push_str(&mut out, info.short_version.as_str());
        }
        push_char(&mut out, '\n');
        push_str(&mut out, "Build version ");
        if info.build_version.as_str().is_empty() {
            push_str(&mut out, "Unknown");
        } else {
            push_str(&mut out, info.build_version.as_str());
        }
        push_char(&mut out, '\n');
        assert(out@ =~= xcode_version_text(info.short_version@, info.build_version@));
    }
    out
}

} // verus!
