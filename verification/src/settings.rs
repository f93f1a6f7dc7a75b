//! The decisions of a `build-settings` run: which projects to try, when a
//! search through a workspace's projects stops, what it reports when
//! nothing matched, and how the resolved settings are printed.

use vstd::prelude::*;

use crate::json::{
    json_map, json_quote, json_string, json_string_map, keys_strictly_sorted, pair_views,
};
use crate::text::{push_char, push_str};

verus! {

/// The settings resolved for one target.
#[derive(Debug, Clone)]
pub struct TargetResolved {
    /// The target's name.
    pub target: String,
    /// The resolved `KEY = VALUE` settings, ordered by key, each key once.
    pub settings: Vec<(String, String)>,
}

/// Every target's settings are ordered by key, each key once.
pub open spec fn settings_sorted(targets: Seq<TargetResolved>) -> bool {
    forall|i: int| 0 <= i < targets.len() ==> keys_strictly_sorted(
        pair_views(#[trigger] targets[i].settings@),
    )
}

/// The error given when neither a project nor a workspace was named.
pub open spec fn missing_selector_message() -> Seq<char> {
    "either --project or --workspace is required"@
}

/// The projects a run tries, in order: those of the workspace when one is
/// named (`workspace_refs` holds the outcome of opening it), else the one
/// project named; an error when neither is named or the workspace could
/// not be opened.
pub fn project_paths(project: Option<&str>, workspace_refs: Option<Result<Vec<String>, String>>) -> (r: Result<Vec<String>, String>)
    ensures
        workspace_refs matches Some(w) ==> r == w,
        workspace_refs is None ==> (project matches Some(p) ==> (r matches Ok(v) && v@.len() == 1
            && v@[0]@ == p@)),
        workspace_refs is None && project is None ==> (r matches Err(m) && m@
            == missing_selector_message()),
{
    match workspace_refs {
        Some(w) => w,
        None => match project {
            Some(p) => {
                let mut v: Vec<String> = Vec::new();
                v.push(p.to_owned());
                Ok(v)
            },
            None => Err("either --project or --workspace is required".to_owned()),
        },
    }
}

/// The resolved values among per-query outcomes, in order.
pub open spec fn resolved_among(outcomes: Seq<Option<TargetResolved>>) -> Seq<TargetResolved>
    decreases outcomes.len(),
{
    if outcomes.len() == 0 {
        Seq::empty()
    } else {
        let before = resolved_among(outcomes.drop_last());
        match outcomes.last() {
            Some(t) => before.push(t),
            None => before,
        }
    }
}

/// What resolved among a project's query outcomes is every resolved
/// outcome, each in its place: the outcomes that are `Some`, unwrapped, in
/// order.
pub proof fn lemma_resolved_among_keeps_every_resolved(outcomes: Seq<Option<TargetResolved>>)
    ensures
        resolved_among(outcomes) == outcomes.filter(|o: Option<TargetResolved>| o is Some).map_values(
            |o: Option<TargetResolved>| o->0,
        ),
    decreases outcomes.len(),
{
    reveal(Seq::filter);
    let pred = |o: Option<TargetResolved>| o is Some;
    let get = |o: Option<TargetResolved>| o->0;
    if outcomes.len() > 0 {
        lemma_resolved_among_keeps_every_resolved(outcomes.drop_last());
        let before = outcomes.drop_last().filter(pred);
        assert(outcomes.filter(pred) == if pred(outcomes.last()) {
            before.push(outcomes.last())
        } else {
            before
        });
        if outcomes.last() is Some {
            assert(before.push(outcomes.last()).map_values(get) =~= before.map_values(get).push(
                outcomes.last()->0,
            ));
        }
    } else {
        assert(outcomes.filter(pred).map_values(get) =~= Seq::<TargetResolved>::empty());
    }
}

/// The outcomes of two runs of queries: what resolved among all of them is
/// what resolved among the first run followed by what resolved among the
/// second.
pub proof fn lemma_resolved_among_concat(a: Seq<Option<TargetResolved>>, b: Seq<Option<TargetResolved>>)
    ensures
        resolved_among(a + b) == resolved_among(a) + resolved_among(b),
    decreases b.len(),
{
    if b.len() == 0 {
        assert(a + b =~= a);
        assert(resolved_among(a) + resolved_among(b) =~= resolved_among(a));
    } else {
        assert((a + b).drop_last() =~= a + b.drop_last());
        assert((a + b).last() == b.last());
        lemma_resolved_among_concat(a, b.drop_last());
        match b.last() {
            Some(t) => {
                assert(resolved_among(a + b) =~= resolved_among(a) + resolved_among(b));
            },
            None => {},
        }
    }
}

/// A search through a workspace's projects for the queried targets.
/// Queries that do not resolve in a project are passed over: the target
/// is not in that project.
pub struct WorkspaceSearch {
    /// What resolved so far, in the order the projects and queries came.
    pub found: Vec<TargetResolved>,
    /// A scheme was asked for (its targets may be spread over projects).
    pub scheme_wanted: bool,
}

/// The needle named in the error when nothing matched: `--target T` when a
/// target was asked for, else `--scheme S`, else nothing.
pub open spec fn needle_text(want_target: Option<Seq<char>>, want_scheme: Option<Seq<char>>) -> Seq<char> {
    match want_target {
        Some(t) => "--target "@ + t,
        None => match want_scheme {
            Some(s) => "--scheme "@ + s,
            None => Seq::empty(),
        },
    }
}

/// The error when no project of a workspace resolved any query.
pub open spec fn no_match_message(want_target: Option<Seq<char>>, want_scheme: Option<Seq<char>>) -> Seq<char> {
    "no target matched "@ + needle_text(want_target, want_scheme) + " across the supplied workspace"@
}

/// The text of an optional string.
pub open spec fn opt_view(s: Option<&str>) -> Option<Seq<char>> {
    match s {
        Some(v) => Some(v@),
        None => None,
    }
}

impl WorkspaceSearch {
    /// A search that has found nothing yet.
    pub fn new(scheme_wanted: bool) -> (r: WorkspaceSearch)
        ensures
            r.found@ == Seq::<TargetResolved>::empty(),
            r.scheme_wanted == scheme_wanted,
    {
        WorkspaceSearch { found: Vec::new(), scheme_wanted }
    }

    /// Takes one project's outcomes (for each query, what it resolved to,
    /// or nothing) and says whether the next project should be tried: a
    /// target search stops at the first project where something resolved,
    /// a scheme search goes through every project.
    pub fn add_project(&mut self, outcomes: Vec<Option<TargetResolved>>) -> (go_on: bool)
        ensures
            final(self).scheme_wanted == old(self).scheme_wanted,
            final(self).found@ == old(self).found@ + resolved_among(outcomes@),
            go_on == (final(self).found@.len() == 0 || final(self).scheme_wanted),
    {
        let ghost start = self.found@;
        let ghost all = outcomes@;
        for o in it: outcomes
            invariant
                it.seq() == all,
                self.scheme_wanted == old(self).scheme_wanted,
                start == old(self).found@,
                self.found@ == start + resolved_among(it.seq().take(it.index() as int)),
        {
            let ghost seen = it.seq().take(it.index() as int);
            assert(it.seq().take(it.index() + 1).drop_last() =~= seen);
            match o {
                Some(t) => {
                    self.found.push(t);
                },
                None => {},
            }
            assert(self.found@ =~= start + resolved_among(it.seq().take(it.index() + 1)));
        }
        assert(all.take(all.len() as int) =~= all);
        self.found.len() == 0 || self.scheme_wanted
    }

    /// The outcome of the search once every project that needed trying was
    /// tried: what resolved, or, when nothing did, an error naming what was
    /// asked for.
    pub fn finish(self, want_target: Option<&str>, want_scheme: Option<&str>) -> (r: Result<Vec<TargetResolved>, String>)
        ensures
            self.found@.len() > 0 ==> (r matches Ok(v) && v@ == self.found@),
            self.found@.len() == 0 ==> (r matches Err(m) && m@ == no_match_message(
                opt_view(want_target),
                opt_view(want_scheme),
            )),
    {
        if self.found.len() > 0 {
            return Ok(self.found);
        }
        let mut m = "no target matched ".to_owned();
        match want_target {
            Some(t) => {
                push_str(&mut m, "--target ");
                push_str(&mut m, t);
            },
            None => match want_scheme {
                Some(sc) => {
                    push_str(&mut m, "--scheme ");
                    push_str(&mut m, sc);
                },
                None => {},
            },
        }
        push_str(&mut m, " across the supplied workspace");
        assert(m@ =~= no_match_message(opt_view(want_target), opt_view(want_scheme)));
        Err(m)
    }
}

/// What a query gave: what it resolved to, or nothing when it failed.
pub open spec fn query_option(q: Result<TargetResolved, String>) -> Option<TargetResolved> {
    match q {
        Ok(t) => Some(t),
        Err(_) => None,
    }
}

/// The queries' outcomes with their errors dropped.
pub open spec fn query_options(qs: Seq<Result<TargetResolved, String>>) -> Seq<Option<TargetResolved>> {
    qs.map_values(|q: Result<TargetResolved, String>| query_option(q))
}

/// The outcome of a run, with the error as its text.
pub open spec fn outcome_view(r: Result<Vec<TargetResolved>, String>) -> Result<Seq<TargetResolved>, Seq<char>> {
    match r {
        Ok(v) => Ok(v@),
        Err(e) => Err(e@),
    }
}

/// Every query of a single project must resolve: what they resolved to, in
/// order, or the error of the first that failed.
pub open spec fn all_resolved(qs: Seq<Result<TargetResolved, String>>) -> Result<Seq<TargetResolved>, Seq<char>>
    decreases qs.len(),
{
    if qs.len() == 0 {
        Ok(Seq::empty())
    } else {
        match qs[0] {
            Err(e) => Err(e@),
            Ok(t) => match all_resolved(qs.drop_first()) {
                Ok(rest) => Ok(seq![t] + rest),
                Err(e) => Err(e),
            },
        }
    }
}

/// A run over a single project: the error met opening it, or else
/// `all_resolved` of its queries.
pub open spec fn single_project_outcome(o: Result<Vec<Result<TargetResolved, String>>, String>) -> Result<Seq<TargetResolved>, Seq<char>> {
    match o {
        Err(e) => Err(e@),
        Ok(qs) => all_resolved(qs@),
    }
}

/// A search through the projects of a workspace, in order, having found
/// `found` so far: an error opening a project ends it with that error;
/// a target search ends at the first project where some query resolves; a
/// scheme search takes what resolves in every project. Queries that fail
/// are passed over.
pub open spec fn search_over(
    os: Seq<Result<Vec<Result<TargetResolved, String>>, String>>,
    scheme_wanted: bool,
    found: Seq<TargetResolved>,
) -> Result<Seq<TargetResolved>, Seq<char>>
    decreases os.len(),
{
    if os.len() == 0 {
        Ok(found)
    } else {
        match os[0] {
            Err(e) => Err(e@),
            Ok(qs) => {
                let more = found + resolved_among(query_options(qs@));
                if more.len() > 0 && !scheme_wanted {
                    Ok(more)
                } else {
                    search_over(os.drop_first(), scheme_wanted, more)
                }
            },
        }
    }
}

/// A run over the projects of a workspace: what the search found, or the
/// "no target matched" error when it found nothing.
pub open spec fn workspace_outcome(
    os: Seq<Result<Vec<Result<TargetResolved, String>>, String>>,
    want_target: Option<Seq<char>>,
    want_scheme: Option<Seq<char>>,
) -> Result<Seq<TargetResolved>, Seq<char>> {
    match search_over(os, want_scheme is Some, Seq::empty()) {
        Err(e) => Err(e),
        Ok(found) => if found.len() > 0 {
            Ok(found)
        } else {
            Err(no_match_message(want_target, want_scheme))
        },
    }
}

/// A `build-settings` run: with exactly one project its errors come out as
/// they are; with any other number the projects are searched.
pub open spec fn run_outcome(
    os: Seq<Result<Vec<Result<TargetResolved, String>>, String>>,
    want_target: Option<Seq<char>>,
    want_scheme: Option<Seq<char>>,
) -> Result<Seq<TargetResolved>, Seq<char>> {
    if os.len() == 1 {
        single_project_outcome(os[0])
    } else {
        workspace_outcome(os, want_target, want_scheme)
    }
}

/// The queries' outcomes with their errors dropped.
fn to_options(qs: Vec<Result<TargetResolved, String>>) -> (r: Vec<Option<TargetResolved>>)
    ensures
        r@ == query_options(qs@),
{
    let ghost all = qs@;
    let mut r: Vec<Option<TargetResolved>> = Vec::new();
    for q in it: qs
        invariant
            it.seq() == all,
            r@ == query_options(all.take(it.index() as int)),
    {
        let o = match q {
            Ok(t) => Some(t),
            Err(_) => None,
        };
        r.push(o);
        assert(r@ =~= query_options(all.take(it.index() + 1)));
    }
    assert(all.take(all.len() as int) =~= all);
    r
}

/// What a single project gave: every query resolved, or the first error.
pub fn single_project_results(outcome: Result<Vec<Result<TargetResolved, String>>, String>) -> (r: Result<Vec<TargetResolved>, String>)
    ensures
        outcome_view(r) == single_project_outcome(outcome),
{
    let ghost given = outcome;
    let qs = match outcome {
        Err(e) => return Err(e),
        Ok(qs) => qs,
    };
    let ghost all = qs@;
    assert(single_project_outcome(given) == all_resolved(all));
    let mut out: Vec<TargetResolved> = Vec::new();
    assert(all.skip(0) =~= all);
    for q in it: qs
        invariant
            it.seq() == all,
            single_project_outcome(given) == all_resolved(all),
            given == outcome,
            all_resolved(all) == match all_resolved(all.skip(it.index() as int)) {
                Ok(rest) => Ok(out@ + rest),
                Err(e) => Err(e),
            },
    {
        let ghost k = it.index() as int;
        assert(all.skip(k)[0] == all[k]);
        assert(all.skip(k).drop_first() =~= all.skip(k + 1));
        match q {
            Ok(t) => {
                let ghost before = out@;
                out.push(t);
                proof {
                    match all_resolved(all.skip(k + 1)) {
                        Ok(rest) => {
                            assert(before + (seq![t] + rest) =~= out@ + rest);
                        },
                        Err(e) => {},
                    }
                }
            },
            Err(e) => {
                assert(all.skip(k)[0] matches Err(e2) && e2 == e);
                assert(all_resolved(all.skip(k)) == Err::<Seq<TargetResolved>, Seq<char>>(e@));
                return Err(e);
            },
        }
    }
    assert(all.skip(all.len() as int) =~= Seq::<Result<TargetResolved, String>>::empty());
    assert(out@ + Seq::<TargetResolved>::empty() =~= out@);
    Ok(out)
}

/// The outcome of a `build-settings` run from what each project gave, in
/// the order the projects are tried: for each, the error met opening it,
/// or each query's outcome. A single project's errors come out as they
/// are; the projects of a workspace are searched, a target search
/// stopping at the first project where something resolved.
pub fn build_settings_run(
    outcomes: Vec<Result<Vec<Result<TargetResolved, String>>, String>>,
    want_target: Option<&str>,
    want_scheme: Option<&str>,
) -> (r: Result<Vec<TargetResolved>, String>)
    ensures
        outcome_view(r) == run_outcome(outcomes@, opt_view(want_target), opt_view(want_scheme)),
{
    let ghost all = outcomes@;
    if outcomes.len() == 1 {
        let mut outcomes = outcomes;
        let first = outcomes.remove(0);
        return single_project_results(first);
    }
    let scheme_wanted = want_scheme.is_some();
    let mut search = WorkspaceSearch::new(scheme_wanted);
    assert(all.skip(0) =~= all);
    assert(search.found@ =~= Seq::<TargetResolved>::empty());
    for o in it: outcomes
        invariant
            it.seq() == all,
            all.len() != 1,
            scheme_wanted == (want_scheme is Some),
            search.scheme_wanted == scheme_wanted,
            search_over(all, scheme_wanted, Seq::empty()) == search_over(
                all.skip(it.index() as int),
                scheme_wanted,
                search.found@,
            ),
    {
        let ghost k = it.index() as int;
        assert(all.skip(k)[0] == all[k]);
        assert(all.skip(k).drop_first() =~= all.skip(k + 1));
        match o {
            Err(e) => {
                return Err(e);
            },
            Ok(qs) => {
                let opts = to_options(qs);
                if !search.add_project(opts) {
                    return search.finish(want_target, want_scheme);
                }
            },
        }
    }
    assert(all.skip(all.len() as int) =~= Seq::<Result<Vec<Result<TargetResolved, String>>, String>>::empty());
    search.finish(want_target, want_scheme)
}

/// The `    KEY = VALUE` lines of a target's settings.
pub open spec fn setting_lines(settings: Seq<(Seq<char>, Seq<char>)>) -> Seq<char>
    decreases settings.len(),
{
    if settings.len() == 0 {
        Seq::empty()
    } else {
        setting_lines(settings.drop_last()) + "    "@ + settings.last().0 + " = "@
            + settings.last().1 + seq!['\n']
    }
}

/// The plain report of one target's settings.
pub open spec fn target_settings_text(t: TargetResolved) -> Seq<char> {
    "Build settings for action build and target "@ + t.target@ + seq![':', '\n'] + setting_lines(
        pair_views(t.settings@),
    ) + seq!['\n']
}

/// The plain `build-settings` report, as `xcodebuild -showBuildSettings`
/// prints it.
pub open spec fn settings_text(targets: Seq<TargetResolved>) -> Seq<char>
    decreases targets.len(),
{
    if targets.len() == 0 {
        Seq::empty()
    } else {
        settings_text(targets.drop_last()) + target_settings_text(targets.last())
    }
}

/// The settings lines of one setting: four spaces, the key, ` = `, the
/// value and a newline.
pub proof fn lemma_setting_lines_single(key: Seq<char>, value: Seq<char>)
    ensures
        setting_lines(seq![(key, value)]) == "    "@ + key + " = "@ + value + seq!['\n'],
{
    let one = seq![(key, value)];
    assert(one.drop_last() =~= Seq::<(Seq<char>, Seq<char>)>::empty());
    assert(setting_lines(one.drop_last()) =~= Seq::<char>::empty());
    assert(one.last() == (key, value));
    assert(setting_lines(seq![(key, value)]) =~= "    "@ + key + " = "@ + value + seq!['\n']);
}

/// The lines of two runs of settings are those of the first run followed
/// by those of the second: each setting gets its own line, in order.
pub proof fn lemma_setting_lines_concat(a: Seq<(Seq<char>, Seq<char>)>, b: Seq<(Seq<char>, Seq<char>)>)
    ensures
        setting_lines(a + b) == setting_lines(a) + setting_lines(b),
    decreases b.len(),
{
    if b.len() == 0 {
        assert(a + b =~= a);
        assert(setting_lines(a) + setting_lines(b) =~= setting_lines(a));
    } else {
        assert((a + b).drop_last() =~= a + b.drop_last());
        assert((a + b).last() == b.last());
        lemma_setting_lines_concat(a, b.drop_last());
        assert(setting_lines(a + b) =~= setting_lines(a) + setting_lines(b));
    }
}

/// The plain report of a single target: its heading, its own settings'
/// lines, and a blank line.
pub proof fn lemma_settings_text_single(t: TargetResolved)
    ensures
        settings_text(seq![t]) == "Build settings for action build and target "@ + t.target@
            + seq![':', '\n'] + setting_lines(pair_views(t.settings@)) + seq!['\n'],
{
    let one = seq![t];
    assert(one.drop_last() =~= Seq::<TargetResolved>::empty());
    assert(settings_text(one.drop_last()) =~= Seq::<char>::empty());
    assert(one.last() == t);
    assert(settings_text(seq![t]) =~= "Build settings for action build and target "@ + t.target@
        + seq![':', '\n'] + setting_lines(pair_views(t.settings@)) + seq!['\n']);
}

/// The plain report of two runs of targets is the report of the first run
/// followed by the report of the second: each target's block stands on its
/// own, built from that target alone.
pub proof fn lemma_settings_text_concat(a: Seq<TargetResolved>, b: Seq<TargetResolved>)
    ensures
        settings_text(a + b) == settings_text(a) + settings_text(b),
    decreases b.len(),
{
    if b.len() == 0 {
        assert(a + b =~= a);
        assert(settings_text(a) + settings_text(b) =~= settings_text(a));
    } else {
        assert((a + b).drop_last() =~= a + b.drop_last());
        assert((a + b).last() == b.last());
        lemma_settings_text_concat(a, b.drop_last());
        assert(settings_text(a + b) =~= settings_text(a) + settings_text(b));
    }
}

/// The JSON object for one target's settings.
pub open spec fn target_settings_json(t: TargetResolved) -> Seq<char> {
    "  {"@ + seq!['\n'] + "    \"action\": \"build\","@ + seq!['\n'] + "    \"buildSettings\": "@
        + json_map(pair_views(t.settings@), 4) + seq![',', '\n'] + "    \"target\": "@ + json_quote(
        t.target@,
    ) + seq!['\n'] + "  }"@
}

/// The target objects, separated by `",\n"`.
pub open spec fn settings_json_objects(targets: Seq<TargetResolved>) -> Seq<char>
    decreases targets.len(),
{
    if targets.len() == 0 {
        Seq::empty()
    } else if targets.len() == 1 {
        target_settings_json(targets[0])
    } else {
        settings_json_objects(targets.drop_last()) + seq![',', '\n'] + target_settings_json(
            targets.last(),
        )
    }
}

/// The JSON objects of a single target are that target's object.
pub proof fn lemma_settings_json_objects_single(t: TargetResolved)
    ensures
        settings_json_objects(seq![t]) == target_settings_json(t),
{
}

/// The objects of two non-empty runs of targets are those of the first
/// run, `",\n"`, then those of the second.
pub proof fn lemma_settings_json_objects_concat(a: Seq<TargetResolved>, b: Seq<TargetResolved>)
    requires
        a.len() > 0,
        b.len() > 0,
    ensures
        settings_json_objects(a + b) == settings_json_objects(a) + seq![',', '\n']
            + settings_json_objects(b),
    decreases b.len(),
{
    let all = a + b;
    assert(all.drop_last() =~= a + b.drop_last());
    assert(all.last() == b.last());
    if b.len() == 1 {
        assert(a + b.drop_last() =~= a);
        assert(b =~= seq![b[0]]);
    } else {
        lemma_settings_json_objects_concat(a, b.drop_last());
        assert(settings_json_objects(all) =~= settings_json_objects(a) + seq![',', '\n']
            + settings_json_objects(b));
    }
}

/// The JSON `build-settings` report, in the shape of
/// `xcodebuild -showBuildSettings -json`.
pub open spec fn settings_json(targets: Seq<TargetResolved>) -> Seq<char> {
    seq!['[', '\n'] + (if targets.len() == 0 {
        Seq::empty()
    } else {
        settings_json_objects(targets) + seq!['\n']
    }) + seq![']', '\n']
}

/// Appends the `    KEY = VALUE` lines of a target's settings.
fn push_setting_lines(out: &mut String, settings: &Vec<(String, String)>)
    ensures
        final(out)@ == old(out)@ + setting_lines(pair_views(settings@)),
{
    let ghost start = out@;
    let ghost views = pair_views(settings@);
    let mut i: usize = 0;
    assert(views.take(0) =~= Seq::<(Seq<char>, Seq<char>)>::empty());
    while i < settings.len()
        invariant
            i <= settings.len(),
            views == pair_views(settings@),
            out@ == start + setting_lines(views.take(i as int)),
        decreases settings.len() - i,
    {
        assert(views.take(i + 1).drop_last() =~= views.take(i as int));
        assert(views.take(i + 1).last() == (settings@[i as int].0@, settings@[i as int].1@));
        push_str(out, "    ");
        push_str(out, settings[i].0.as_str());
        push_str(out, " = ");
        push_str(out, settings[i].1.as_str());
        push_char(out, '\n');
        assert(out@ =~= start + setting_lines(views.take(i + 1)));
        i = i + 1;
    }
    assert(views.take(settings.len() as int) =~= views);
}

/// The plain `build-settings` report: for each target, a heading line,
/// one `    KEY = VALUE` line per setting, and a blank line.
pub fn settings_text_report(targets: &Vec<TargetResolved>) -> (r: String)
    requires
        settings_sorted(targets@),
    ensures
        r@ == settings_text(targets@),
{
    let mut out = String::new();
    let mut i: usize = 0;
    assert(targets@.take(0) =~= Seq::<TargetResolved>::empty());
    while i < targets.len()
        invariant
            i <= targets.len(),
            out@ == settings_text(targets@.take(i as int)),
        decreases targets.len() - i,
    {
        assert(targets@.take(i + 1).drop_last() =~= targets@.take(i as int));
        assert(targets@.take(i + 1).last() == targets@[i as int]);
        push_str(&mut out, "Build settings for action build and target ");
        push_str(&mut out, targets[i].target.as_str());
        push_char(&mut out, ':');
        push_char(&mut out, '\n');
        push_setting_lines(&mut out, &targets[i].settings);
        push_char(&mut out, '\n');
        assert(out@ =~= settings_text(targets@.take(i + 1)));
        i = i + 1;
    }
    assert(targets@.take(targets.len() as int) =~= targets@);
    out
}

/// Appends the JSON object of one target's settings.
fn push_target_json(out: &mut String, t: &TargetResolved)
    requires
        keys_strictly_sorted(pair_views(t.settings@)),
    ensures
        final(out)@ == old(out)@ + target_settings_json(*t),
{
    let ghost start = out@;
    push_str(out, "  {");
    push_char(out, '\n');
    push_str(out, "    \"action\": \"build\",");
    push_char(out, '\n');
    push_str(out, "    \"buildSettings\": ");
    let m = json_string_map(t.settings.as_slice(), 4);
    push_str(out, m.as_str());
    push_char(out, ',');
    push_char(out, '\n');
    push_str(out, "    \"target\": ");
    let q = json_string(t.target.as_str());
    push_str(out, q.as_str());
    push_char(out, '\n');
    push_str(out, "  }");
    assert(out@ =~= start + target_settings_json(*t));
}

/// The JSON `build-settings` report: an array with one object per target
/// holding `action`, `buildSettings` and `target`.
pub fn settings_json_report(targets: &Vec<TargetResolved>) -> (r: String)
    requires
        settings_sorted(targets@),
    ensures
        r@ == settings_json(targets@),
{
    let mut out = String::new();
    push_char(&mut out, '[');
    push_char(&mut out, '\n');
    let mut i: usize = 0;
    assert(targets@.take(0) =~= Seq::<TargetResolved>::empty());
    while i < targets.len()
        invariant
            i <= targets.len(),
            settings_sorted(targets@),
            out@ == seq!['[', '\n'] + settings_json_objects(targets@.take(i as int)),
        decreases targets.len() - i,
    {
        assert(targets@.take(i + 1).drop_last() =~= targets@.take(i as int));
        assert(targets@.take(i + 1).last() == targets@[i as int]);
        if i > 0 {
            push_char(&mut out, ',');
            push_char(&mut out, '\n');
        }
        assert(keys_strictly_sorted(pair_views(targets@[i as int].settings@)));
        push_target_json(&mut out, &targets[i]);
        assert(out@ =~= seq!['[', '\n'] + settings_json_objects(targets@.take(i + 1)));
        i = i + 1;
    }
    assert(targets@.take(targets.len() as int) =~= targets@);
    if targets.len() > 0 {
        push_char(&mut out, '\n');
    }
    push_char(&mut out, ']');
    push_char(&mut out, '\n');
    assert(out@ =~= settings_json(targets@));
    out
}

} // verus!
