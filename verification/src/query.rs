use vstd::multiset::Multiset;
use vstd::prelude::*;

use crate::duration::{parse_duration_spec, parse_time_duration, DEFAULT_RECENT_DAYS, MS_PER_DAY};
use crate::project::{Project, ProjectView};
use crate::registry::{spec_access_info, Config, ConfigView};
use crate::strutil::vec_contains_str;

verus! {

/// One query result: a project decorated with the current machine's access
/// statistics.
pub struct ProjectData {
    pub project: Project,
    pub last_accessed: Option<i64>,
    pub access_count: u32,
}

/// Mathematical model of a [`ProjectData`].
#[verifier::ext_equal]
pub ghost struct ProjectDataView {
    pub project: ProjectView,
    pub last_accessed: Option<i64>,
    pub access_count: u32,
}

impl View for ProjectData {
    type V = ProjectDataView;

    open spec fn view(&self) -> ProjectDataView {
        ProjectDataView {
            project: self.project@,
            last_accessed: self.last_accessed,
            access_count: self.access_count,
        }
    }
}

impl DeepView for ProjectData {
    type V = ProjectDataView;

    open spec fn deep_view(&self) -> ProjectDataView {
        self.view()
    }
}

// ---------------------------------------------------------------------------
// Filtering model
// ---------------------------------------------------------------------------
/// The project's most recent activity: the cached git time when present,
/// else the update time.
pub open spec fn last_activity(p: ProjectView) -> i64 {
    match p.git_updated_at {
        Some(t) => t,
        None => p.updated_at,
    }
}

/// All of `and_tags` occur among the project's tags (vacuously true when
/// none are supplied).
pub open spec fn passes_and_tags(p: ProjectView, and_tags: Seq<Seq<char>>) -> bool {
    forall|i: int| 0 <= i < and_tags.len() ==> p.tags.contains(#[trigger] and_tags[i])
}

/// At least one of `any_tags` occurs among the project's tags (vacuously
/// true when none are supplied).
pub open spec fn passes_any_tags(p: ProjectView, any_tags: Seq<Seq<char>>) -> bool {
    any_tags.len() == 0 || exists|i: int|
        0 <= i < any_tags.len() && p.tags.contains(#[trigger] any_tags[i])
}

/// The project's last activity falls on or after the cutoff, when there is
/// one.
pub open spec fn passes_recency(p: ProjectView, cutoff: Option<int>) -> bool {
    match cutoff {
        None => true,
        Some(cut) => last_activity(p) >= cut,
    }
}

/// Conjunction of all three filters; absent filters are vacuously true.
pub open spec fn passes_filters(
    p: ProjectView,
    and_tags: Seq<Seq<char>>,
    any_tags: Seq<Seq<char>>,
    cutoff: Option<int>,
) -> bool {
    passes_and_tags(p, and_tags) && passes_any_tags(p, any_tags) && passes_recency(p, cutoff)
}

/// The recency window in milliseconds: no filter means no window, and a
/// malformed duration string falls back to the default thirty-day window
/// instead of failing the query.
pub open spec fn spec_effective_window(recent: Option<Seq<char>>) -> Option<i64> {
    match recent {
        None => None,
        Some(s) => match parse_duration_spec(s) {
            Some(d) => Some(d),
            None => Some((DEFAULT_RECENT_DAYS * MS_PER_DAY) as i64),
        },
    }
}

/// The cutoff instant implied by the recency filter at time `now`.
pub open spec fn spec_cutoff(recent: Option<Seq<char>>, now: i64) -> Option<int> {
    match spec_effective_window(recent) {
        None => None,
        Some(w) => Some(now - w),
    }
}

/// A project as decorated for query output.
pub open spec fn decorate_one(c: ConfigView, p: ProjectView) -> ProjectDataView {
    ProjectDataView {
        project: p,
        last_accessed: spec_access_info(c, p.id).0,
        access_count: spec_access_info(c, p.id).1,
    }
}

/// The filtered, decorated rows, in registry iteration order.
pub open spec fn filter_decorate(
    c: ConfigView,
    s: Seq<ProjectView>,
    and_tags: Seq<Seq<char>>,
    any_tags: Seq<Seq<char>>,
    cutoff: Option<int>,
) -> Seq<ProjectDataView>
    decreases s.len(),
{
    if s.len() == 0 {
        Seq::empty()
    } else {
        let prev = filter_decorate(c, s.drop_last(), and_tags, any_tags, cutoff);
        if passes_filters(s.last(), and_tags, any_tags, cutoff) {
            prev.push(decorate_one(c, s.last()))
        } else {
            prev
        }
    }
}

// ---------------------------------------------------------------------------
// Ordering model
// ---------------------------------------------------------------------------
/// `a` is strictly later than `b`, with `None` below every `Some`.
pub open spec fn opt_time_gt(a: Option<i64>, b: Option<i64>) -> bool {
    match (a, b) {
        (Some(x), Some(y)) => x > y,
        (Some(_), None) => true,
        _ => false,
    }
}

/// `a` sorts strictly before `b`: later git activity first, ties broken by
/// update time, then creation time, each descending.
pub open spec fn precedes_strict(a: ProjectDataView, b: ProjectDataView) -> bool {
    ||| opt_time_gt(a.project.git_updated_at, b.project.git_updated_at)
    ||| (a.project.git_updated_at == b.project.git_updated_at && a.project.updated_at
        > b.project.updated_at)
    ||| (a.project.git_updated_at == b.project.git_updated_at && a.project.updated_at
        == b.project.updated_at && a.project.created_at > b.project.created_at)
}

/// `a` and `b` carry identical sort keys.
pub open spec fn same_keys(a: ProjectDataView, b: ProjectDataView) -> bool {
    a.project.git_updated_at == b.project.git_updated_at && a.project.updated_at
        == b.project.updated_at && a.project.created_at == b.project.created_at
}

/// `a` may stand at or before `b` in sorted output.
pub open spec fn ordered_le(a: ProjectDataView, b: ProjectDataView) -> bool {
    precedes_strict(a, b) || same_keys(a, b)
}

/// Every pair of rows is comparable.
pub proof fn lemma_order_total(a: ProjectDataView, b: ProjectDataView)
    ensures
        precedes_strict(a, b) || precedes_strict(b, a) || same_keys(a, b),
{
}

/// The ordering is transitive.
pub proof fn lemma_order_trans(a: ProjectDataView, b: ProjectDataView, c: ProjectDataView)
    requires
        ordered_le(a, b),
        ordered_le(b, c),
    ensures
        ordered_le(a, c),
{
}

/// `x` placed into `s` after every row not strictly below it: the insertion
/// step of a stable sort.
pub open spec fn insert_sorted(x: ProjectDataView, s: Seq<ProjectDataView>) -> Seq<ProjectDataView>
    decreases s.len(),
{
    if s.len() == 0 {
        seq![x]
    } else if precedes_strict(x, s[0]) {
        seq![x] + s
    } else {
        seq![s[0]] + insert_sorted(x, s.drop_first())
    }
}

/// The stable sort of `s` under the listing order, built by inserting rows
/// left to right.
pub open spec fn sort_data(s: Seq<ProjectDataView>) -> Seq<ProjectDataView>
    decreases s.len(),
{
    if s.len() == 0 {
        Seq::empty()
    } else {
        insert_sorted(s.last(), sort_data(s.drop_last()))
    }
}

/// Rows stand in listing order.
pub open spec fn sorted_data(s: Seq<ProjectDataView>) -> bool {
    forall|i: int, j: int| 0 <= i < j < s.len() ==> ordered_le(#[trigger] s[i], #[trigger] s[j])
}

/// The whole query: filter, decorate, sort, then truncate to the limit.
/// Limiting happens strictly after filtering and sorting.
pub open spec fn spec_query(
    c: ConfigView,
    and_tags: Seq<Seq<char>>,
    any_tags: Seq<Seq<char>>,
    recent: Option<Seq<char>>,
    now: i64,
    limit: Option<usize>,
) -> Seq<ProjectDataView> {
    let sorted = sort_data(
        filter_decorate(c, c.projects, and_tags, any_tags, spec_cutoff(recent, now)),
    );
    match limit {
        None => sorted,
        Some(n) => if n < sorted.len() {
            sorted.take(n as int)
        } else {
            sorted
        },
    }
}

// ---------------------------------------------------------------------------
// Sorting lemmas
// ---------------------------------------------------------------------------
/// Inserting at the first position whose row is strictly below `x` realizes
/// [`insert_sorted`].
proof fn lemma_insert_sorted_at(s: Seq<ProjectDataView>, x: ProjectDataView, j: int)
    requires
        0 <= j <= s.len(),
        forall|k: int| 0 <= k < j ==> !precedes_strict(x, #[trigger] s[k]),
        j < s.len() ==> precedes_strict(x, s[j]),
    ensures
        insert_sorted(x, s) == s.insert(j, x),
    decreases s.len(),
{
    s.insert_ensures(j, x);
    if s.len() == 0 {
        assert(insert_sorted(x, s) =~= s.insert(0, x));
    } else if precedes_strict(x, s[0]) {
        assert(j == 0);
        assert(seq![x] + s =~= s.insert(0, x));
    } else {
        assert(j >= 1);
        let t = s.drop_first();
        assert forall|k: int| 0 <= k < j - 1 implies !precedes_strict(x, #[trigger] t[k]) by {
            assert(t[k] == s[k + 1]);
        }
        assert(j - 1 < t.len() ==> precedes_strict(x, t[j - 1]));
        lemma_insert_sorted_at(t, x, j - 1);
        t.insert_ensures(j - 1, x);
        assert(seq![s[0]] + t.insert(j - 1, x) =~= s.insert(j, x));
    }
}

/// Insertion grows the row count by one.
proof fn lemma_insert_sorted_len(x: ProjectDataView, s: Seq<ProjectDataView>)
    ensures
        insert_sorted(x, s).len() == s.len() + 1,
    decreases s.len(),
{
    if s.len() > 0 && !precedes_strict(x, s[0]) {
        lemma_insert_sorted_len(x, s.drop_first());
    }
}

/// Every row of an insertion's result is the inserted row or one of the
/// originals.
proof fn lemma_insert_sorted_index(x: ProjectDataView, s: Seq<ProjectDataView>, i: int)
    requires
        0 <= i < insert_sorted(x, s).len(),
    ensures
        insert_sorted(x, s).len() == s.len() + 1,
        insert_sorted(x, s)[i] == x || s.contains(insert_sorted(x, s)[i]),
    decreases s.len(),
{
    lemma_insert_sorted_len(x, s);
    if s.len() == 0 {
    } else if precedes_strict(x, s[0]) {
        if i > 0 {
            assert(insert_sorted(x, s)[i] == s[i - 1]);
        }
    } else {
        lemma_insert_sorted_len(x, s.drop_first());
        let t = s.drop_first();
        if i == 0 {
            assert(insert_sorted(x, s)[0] == s[0]);
        } else {
            lemma_insert_sorted_index(x, t, i - 1);
            assert(insert_sorted(x, s)[i] == insert_sorted(x, t)[i - 1]);
            if insert_sorted(x, t)[i - 1] != x {
                let e = insert_sorted(x, t)[i - 1];
                let k = choose|k: int| 0 <= k < t.len() && t[k] == e;
                assert(s[k + 1] == e);
            }
        }
    }
}

/// Insertion keeps the rows in listing order.
proof fn lemma_insert_sorted_sorted(x: ProjectDataView, s: Seq<ProjectDataView>)
    requires
        sorted_data(s),
    ensures
        sorted_data(insert_sorted(x, s)),
    decreases s.len(),
{
    let r = insert_sorted(x, s);
    if s.len() == 0 {
    } else if precedes_strict(x, s[0]) {
        assert forall|i: int, j: int| 0 <= i < j < r.len() implies ordered_le(
            #[trigger] r[i],
            #[trigger] r[j],
        ) by {
            if i == 0 {
                assert(r[j] == s[j - 1]);
                if j - 1 > 0 {
                    assert(ordered_le(s[0], s[j - 1]));
                }
                lemma_order_trans(x, s[0], s[j - 1]);
            } else {
                assert(r[i] == s[i - 1]);
                assert(r[j] == s[j - 1]);
            }
        }
    } else {
        let t = s.drop_first();
        assert forall|i: int, j: int| 0 <= i < j < t.len() implies ordered_le(
            #[trigger] t[i],
            #[trigger] t[j],
        ) by {
            assert(t[i] == s[i + 1]);
            assert(t[j] == s[j + 1]);
        }
        lemma_insert_sorted_sorted(x, t);
        lemma_order_total(x, s[0]);
        assert forall|i: int, j: int| 0 <= i < j < r.len() implies ordered_le(
            #[trigger] r[i],
            #[trigger] r[j],
        ) by {
            if i == 0 {
                assert(r[j] == insert_sorted(x, t)[j - 1]);
                lemma_insert_sorted_index(x, t, j - 1);
                if insert_sorted(x, t)[j - 1] == x {
                    assert(ordered_le(s[0], x));
                } else {
                    let e = insert_sorted(x, t)[j - 1];
                    let k = choose|k: int| 0 <= k < t.len() && t[k] == e;
                    assert(t[k] == s[k + 1]);
                    assert(ordered_le(s[0], s[k + 1]));
                }
            } else {
                assert(r[i] == insert_sorted(x, t)[i - 1]);
                assert(r[j] == insert_sorted(x, t)[j - 1]);
            }
        }
    }
}

/// Law: the sorted output stands in listing order — later git activity
/// first with `None` last, ties broken by update time, then creation time.
pub proof fn lemma_sort_data_sorted(s: Seq<ProjectDataView>)
    ensures
        sorted_data(sort_data(s)),
    decreases s.len(),
{
    if s.len() > 0 {
        lemma_sort_data_sorted(s.drop_last());
        lemma_insert_sorted_sorted(s.last(), sort_data(s.drop_last()));
    }
}

/// Insertion adds exactly the inserted row to the multiset of rows.
proof fn lemma_insert_sorted_multiset(x: ProjectDataView, s: Seq<ProjectDataView>)
    ensures
        insert_sorted(x, s).to_multiset() == s.to_multiset().insert(x),
    decreases s.len(),
{
    broadcast use vstd::seq_lib::group_to_multiset_ensures;

    if s.len() == 0 {
        assert(seq![x] =~= Seq::<ProjectDataView>::empty().push(x));
    } else if precedes_strict(x, s[0]) {
        vstd::seq_lib::lemma_multiset_commutative(seq![x], s);
        assert(seq![x] =~= Seq::<ProjectDataView>::empty().push(x));
        assert(seq![x].to_multiset() == Multiset::<ProjectDataView>::empty().insert(x));
        assert(insert_sorted(x, s).to_multiset() =~= s.to_multiset().insert(x));
    } else {
        let t = s.drop_first();
        lemma_insert_sorted_multiset(x, t);
        vstd::seq_lib::lemma_multiset_commutative(seq![s[0]], insert_sorted(x, t));
        vstd::seq_lib::lemma_multiset_commutative(seq![s[0]], t);
        assert(seq![s[0]] + t =~= s);
        assert(seq![s[0]] =~= Seq::<ProjectDataView>::empty().push(s[0]));
        assert(insert_sorted(x, s).to_multiset() =~= s.to_multiset().insert(x));
    }
}

/// Law: sorting permutes the rows and loses none.
pub proof fn lemma_sort_data_permutes(s: Seq<ProjectDataView>)
    ensures
        sort_data(s).to_multiset() == s.to_multiset(),
        sort_data(s).len() == s.len(),
    decreases s.len(),
{
    broadcast use vstd::seq_lib::group_to_multiset_ensures;

    if s.len() > 0 {
        lemma_sort_data_permutes(s.drop_last());
        lemma_insert_sorted_multiset(s.last(), sort_data(s.drop_last()));
        lemma_insert_sorted_len(s.last(), sort_data(s.drop_last()));
        assert(s.drop_last().push(s.last()) =~= s);
        assert(sort_data(s).to_multiset() =~= s.to_multiset());
    }
}

/// Law: the query is a function of its inputs alone — two runs over an
/// unmodified registry with identical filters, time, and limit yield
/// identical ordered output.
pub proof fn lemma_query_idempotent(
    c1: ConfigView,
    c2: ConfigView,
    and_tags: Seq<Seq<char>>,
    any_tags: Seq<Seq<char>>,
    recent: Option<Seq<char>>,
    now: i64,
    limit: Option<usize>,
)
    requires
        c1 == c2,
    ensures
        spec_query(c1, and_tags, any_tags, recent, now, limit) == spec_query(
            c2,
            and_tags,
            any_tags,
            recent,
            now,
            limit,
        ),
{
}

// ---------------------------------------------------------------------------
// Executable engine
// ---------------------------------------------------------------------------
/// Model of an optional cutoff carried at run time in 128 bits, wide enough
/// that `now - window` never overflows.
pub open spec fn opt_i128_view(c: Option<i128>) -> Option<int> {
    match c {
        None => None,
        Some(v) => Some(v as int),
    }
}

/// All of `tags` occur among the project's tags.
fn has_all_tags(p: &Project, tags: &Vec<String>) -> (r: bool)
    ensures
        r == passes_and_tags(p@, tags.deep_view()),
{
    let mut i: usize = 0;
    while i < tags.len()
        invariant
            0 <= i <= tags.len(),
            forall|k: int| 0 <= k < i ==> p@.tags.contains(#[trigger] tags.deep_view()[k]),
        decreases tags.len() - i,
    {
        if !vec_contains_str(&p.tags, tags[i].as_str()) {
            proof {
                assert(!p@.tags.contains(tags.deep_view()[i as int]));
            }
            return false;
        }
        i += 1;
    }
    true
}

/// At least one of `tags` occurs among the project's tags.
fn has_any_tag(p: &Project, tags: &Vec<String>) -> (r: bool)
    ensures
        r == exists|i: int|
            0 <= i < tags.deep_view().len() && p@.tags.contains(#[trigger] tags.deep_view()[i]),
{
    let mut i: usize = 0;
    while i < tags.len()
        invariant
            0 <= i <= tags.len(),
            forall|k: int| 0 <= k < i ==> !p@.tags.contains(#[trigger] tags.deep_view()[k]),
        decreases tags.len() - i,
    {
        if vec_contains_str(&p.tags, tags[i].as_str()) {
            proof {
                assert(p@.tags.contains(tags.deep_view()[i as int]));
            }
            return true;
        }
        i += 1;
    }
    false
}

/// Whether the project passes all supplied filters.
fn project_passes(
    p: &Project,
    and_tags: &Vec<String>,
    any_tags: &Vec<String>,
    cutoff: Option<i128>,
) -> (r: bool)
    ensures
        r == passes_filters(p@, and_tags.deep_view(), any_tags.deep_view(), opt_i128_view(cutoff)),
{
    if !has_all_tags(p, and_tags) {
        return false;
    }
    if any_tags.len() > 0 && !has_any_tag(p, any_tags) {
        return false;
    }
    let la: i64 = match p.git_updated_at {
        Some(t) => t,
        None => p.updated_at,
    };
    match cutoff {
        None => true,
        Some(cut) => (la as i128) >= cut,
    }
}

/// Run-time counterpart of [`precedes_strict`].
fn data_precedes(a: &ProjectData, b: &ProjectData) -> (r: bool)
    ensures
        r == precedes_strict(a@, b@),
{
    let ga = a.project.git_updated_at;
    let gb = b.project.git_updated_at;
    let git_gt = match (ga, gb) {
        (Some(x), Some(y)) => x > y,
        (Some(_), None) => true,
        _ => false,
    };
    let git_eq = match (ga, gb) {
        (Some(x), Some(y)) => x == y,
        (None, None) => true,
        _ => false,
    };
    if git_gt {
        true
    } else if git_eq {
        if a.project.updated_at > b.project.updated_at {
            true
        } else if a.project.updated_at == b.project.updated_at {
            a.project.created_at > b.project.created_at
        } else {
            false
        }
    } else {
        false
    }
}

/// First index whose row is strictly below `x`, or the length.
fn insertion_point(v: &Vec<ProjectData>, x: &ProjectData) -> (j: usize)
    ensures
        j <= v.len(),
        forall|k: int| 0 <= k < j ==> !precedes_strict(x@, #[trigger] v.deep_view()[k]),
        j < v.len() ==> precedes_strict(x@, v.deep_view()[j as int]),
{
    let mut j: usize = 0;
    while j < v.len()
        invariant
            0 <= j <= v.len(),
            forall|k: int| 0 <= k < j ==> !precedes_strict(x@, #[trigger] v.deep_view()[k]),
        decreases v.len() - j,
    {
        if data_precedes(x, &v[j]) {
            proof {
                assert(v.deep_view()[j as int] == v@[j as int]@);
            }
            return j;
        }
        j += 1;
    }
    j
}

/// Places `x` according to the stable insertion step.
fn sorted_insert(v: &mut Vec<ProjectData>, x: ProjectData)
    ensures
        final(v).deep_view() == insert_sorted(x@, old(v).deep_view()),
{
    let j = insertion_point(v, &x);
    let ghost s = v.deep_view();
    let ghost shallow = v@;
    let ghost xv = x@;
    v.insert(j, x);
    proof {
        lemma_insert_sorted_at(s, xv, j as int);
        s.insert_ensures(j as int, xv);
        shallow.insert_ensures(j as int, x);
        assert(v.deep_view() =~= s.insert(j as int, xv));
    }
}

/// Stable insertion sort of the decorated rows under the listing order.
fn sort_project_data(rows: Vec<ProjectData>) -> (r: Vec<ProjectData>)
    ensures
        r.deep_view() == sort_data(rows.deep_view()),
{
    let ghost orig = rows.deep_view();
    let mut rest = rows;
    let mut out: Vec<ProjectData> = Vec::new();
    proof {
        assert(orig.take(0) =~= Seq::<ProjectDataView>::empty());
        assert(orig.skip(0) =~= orig);
    }
    while rest.len() > 0
        invariant
            rest.len() <= orig.len(),
            out.deep_view() == sort_data(orig.take(orig.len() - rest.len())),
            rest.deep_view() == orig.skip(orig.len() - rest.len()),
        decreases rest.len(),
    {
        let ghost k = orig.len() - rest.len() as int;
        let ghost old_shallow = rest@;
        let ghost old_deep = rest.deep_view();
        let x = rest.remove(0);
        proof {
            old_shallow.remove_ensures(0);
            assert(x@ == old_deep[0]);
            assert(x@ == orig[k]);
            assert forall|t: int| 0 <= t < rest@.len() implies #[trigger] rest.deep_view()[t]
                == orig.skip(k + 1)[t] by {
                assert(rest@[t] == old_shallow[t + 1]);
                assert(rest.deep_view()[t] == rest@[t]@);
                assert(old_deep[t + 1] == old_shallow[t + 1]@);
                assert(old_deep[t + 1] == orig.skip(k)[t + 1]);
                assert(orig.skip(k)[t + 1] == orig[k + 1 + t]);
                assert(orig.skip(k + 1)[t] == orig[k + 1 + t]);
            }
            assert(rest.deep_view() =~= orig.skip(k + 1));
            assert(orig.take(k + 1).drop_last() =~= orig.take(k));
            assert(orig.take(k + 1).last() == orig[k]);
        }
        sorted_insert(&mut out, x);
    }
    proof {
        assert(orig.take(orig.len() as int) =~= orig);
    }
    out
}

/// The Query Engine: filters the registry's projects by AND-tags, OR-tags
/// and recency, decorates each survivor with the current machine's access
/// info, sorts by the three-key listing order, and truncates to `limit`
/// strictly afterwards. `now` is the query time used by the recency filter.
pub fn get_filtered_project_data(
    config: &Config,
    tags: &Vec<String>,
    tags_any: &Vec<String>,
    recent: &Option<String>,
    now: i64,
    limit: Option<usize>,
) -> (r: Vec<ProjectData>)
    requires
        config@.wf(),
    ensures
        r.deep_view() == spec_query(
            config@,
            tags.deep_view(),
            tags_any.deep_view(),
            recent.deep_view(),
            now,
            limit,
        ),
{
    let ghost cfg = config@;
    let ghost cspec = spec_cutoff(recent.deep_view(), now);
    let cutoff: Option<i128> = match recent {
        None => None,
        Some(rs) => {
            let w: i64 = match parse_time_duration(rs.as_str()) {
                Some(d) => d,
                None => DEFAULT_RECENT_DAYS * MS_PER_DAY,
            };
            Some((now as i128) - (w as i128))
        },
    };
    proof {
        assert(opt_i128_view(cutoff) == cspec);
    }
    let mut rows: Vec<ProjectData> = Vec::new();
    proof {
        assert(cfg.projects.take(0) =~= Seq::<ProjectView>::empty());
    }
    let mut i: usize = 0;
    while i < config.projects.len()
        invariant
            config@.wf(),
            cfg == config@,
            cspec == opt_i128_view(cutoff),
            0 <= i <= config.projects.len(),
            rows.deep_view() == filter_decorate(
                cfg,
                cfg.projects.take(i as int),
                tags.deep_view(),
                tags_any.deep_view(),
                cspec,
            ),
        decreases config.projects.len() - i,
    {
        proof {
            assert(cfg.projects.take(i as int + 1).drop_last() =~= cfg.projects.take(i as int));
            assert(cfg.projects.take(i as int + 1).last() == cfg.projects[i as int]);
        }
        let p = &config.projects[i];
        if project_passes(p, tags, tags_any, cutoff) {
            let info = config.get_project_access_info(p.id);
            rows.push(
                ProjectData { project: p.clone(), last_accessed: info.0, access_count: info.1 },
            );
            proof {
                assert(rows.deep_view() =~= filter_decorate(
                    cfg,
                    cfg.projects.take(i as int),
                    tags.deep_view(),
                    tags_any.deep_view(),
                    cspec,
                ).push(decorate_one(cfg, cfg.projects[i as int])));
            }
        }
        i += 1;
    }
    proof {
        assert(cfg.projects.take(cfg.projects.len() as int) =~= cfg.projects);
    }
    let mut sorted = sort_project_data(rows);
    let ghost full = sorted.deep_view();
    if let Some(n) = limit {
        if n < sorted.len() {
            sorted.truncate(n);
            proof {
                assert(sorted.deep_view() =~= full.take(n as int));
            }
        }
    }
    sorted
}

} // verus!
