//! The deduplicating aggregator.  It consumes the complete sequence of fetch
//! outcomes, classifies and fingerprints every successful body, and keeps,
//! per category, the set of fingerprints seen and the ordered list of URLs
//! whose content was new when it arrived.  The whole computation is pinned
//! to the spec-level model [`run_model`].

use vstd::prelude::*;
use crate::Category;
use crate::classify::{classified, classify};
use crate::fingerprint::{fingerprint, fingerprint_of};

verus! {

/// One fetch outcome: the fetched body for a URL, or a failure (transport
/// error, non-text response), which carries nothing and is dropped.
pub enum FetchOutcome {
    Success { url: String, body: String },
    Failure,
}

impl View for FetchOutcome {
    type V = Option<(Seq<char>, Seq<char>)>;

    open spec fn view(&self) -> Option<(Seq<char>, Seq<char>)> {
        match self {
            FetchOutcome::Success { url, body } => Some((url@, body@)),
            FetchOutcome::Failure => None,
        }
    }
}

/// The views of a sequence of outcomes.
pub open spec fn views_of(os: Seq<FetchOutcome>) -> Seq<Option<(Seq<char>, Seq<char>)>> {
    os.map_values(|o: FetchOutcome| o@)
}

/// The aggregator's abstract state: per category, the fingerprints seen and
/// the admitted `(url, fingerprint)` pairs in order of first encounter.
pub struct AggModel {
    pub json_fps: Set<u64>,
    pub yaml_fps: Set<u64>,
    pub json: Seq<(Seq<char>, u64)>,
    pub yaml: Seq<(Seq<char>, u64)>,
}

/// The state before any outcome is consumed.
pub open spec fn init_model() -> AggModel {
    AggModel {
        json_fps: Set::empty(),
        yaml_fps: Set::empty(),
        json: Seq::empty(),
        yaml: Seq::empty(),
    }
}

/// Does some pair in `ps` carry this URL?
pub open spec fn seq_has_url(ps: Seq<(Seq<char>, u64)>, url: Seq<char>) -> bool {
    exists|i: int| 0 <= i < ps.len() && ps[i].0 == url
}

/// The URLs of the pairs, in order.
pub open spec fn urls_of(ps: Seq<(Seq<char>, u64)>) -> Seq<Seq<char>> {
    ps.map_values(|p: (Seq<char>, u64)| p.0)
}

/// How one outcome changes the state.  A failure, an unclassified body, and
/// a fingerprint already seen in the matched category all leave the state as
/// it was; a new fingerprint is recorded, and the URL is appended to the
/// category's list unless it already stands there.
pub open spec fn step_model(st: AggModel, o: Option<(Seq<char>, Seq<char>)>) -> AggModel {
    match o {
        None => st,
        Some((url, body)) => match classified(body) {
            None => st,
            Some((cat, canon)) => {
                let h = fingerprint_of(canon);
                match cat {
                    Category::Json => {
                        if st.json_fps.contains(h) {
                            st
                        } else {
                            AggModel {
                                json_fps: st.json_fps.insert(h),
                                yaml_fps: st.yaml_fps,
                                json: if seq_has_url(st.json, url) {
                                    st.json
                                } else {
                                    st.json.push((url, h))
                                },
                                yaml: st.yaml,
                            }
                        }
                    },
                    Category::Yaml => {
                        if st.yaml_fps.contains(h) {
                            st
                        } else {
                            AggModel {
                                json_fps: st.json_fps,
                                yaml_fps: st.yaml_fps.insert(h),
                                json: st.json,
                                yaml: if seq_has_url(st.yaml, url) {
                                    st.yaml
                                } else {
                                    st.yaml.push((url, h))
                                },
                            }
                        }
                    },
                }
            },
        },
    }
}

/// The state after consuming the outcomes in order.
pub open spec fn run_model(os: Seq<Option<(Seq<char>, Seq<char>)>>) -> AggModel
    decreases os.len(),
{
    if os.len() == 0 {
        init_model()
    } else {
        step_model(run_model(os.drop_last()), os.last())
    }
}

/// A set of fingerprints, backed by hashbrown's hash set; its contents are
/// named by [`fp_set_contents`].
#[verifier::external_body]
pub struct FingerprintSet {
    set: hashbrown::HashSet<u64>,
}

/// The fingerprints a [`FingerprintSet`] holds.
pub uninterp spec fn fp_set_contents(s: FingerprintSet) -> Set<u64>;

impl FingerprintSet {
    /// Relies on hashbrown::HashSet::new: the fresh set holds nothing.
    #[verifier::external_body]
    pub fn new() -> (s: Self)
        ensures
            fp_set_contents(s) == Set::<u64>::empty(),
    {
        FingerprintSet { set: hashbrown::HashSet::new() }
    }

    /// Relies on hashbrown::HashSet::insert: the value is added, and the
    /// call reports whether it was absent; a hash set holds finitely many
    /// values.
    #[verifier::external_body]
    pub fn insert(&mut self, v: u64) -> (fresh: bool)
        ensures
            fp_set_contents(*final(self)) == fp_set_contents(*old(self)).insert(v),
            fresh == !fp_set_contents(*old(self)).contains(v),
            fp_set_contents(*final(self)).finite(),
    {
        self.set.insert(v)
    }

    /// Relies on hashbrown::HashSet::len: the number of values held.
    #[verifier::external_body]
    pub fn len(&self) -> (n: usize)
        ensures
            n == fp_set_contents(*self).len(),
    {
        self.set.len()
    }
}

/// Does some string in `urls` view as `url`?
pub open spec fn has_url_view(urls: Seq<String>, url: Seq<char>) -> bool {
    exists|i: int| 0 <= i < urls.len() && urls[i]@ == url
}

/// The views of a sequence of strings.
pub open spec fn url_views(urls: Seq<String>) -> Seq<Seq<char>> {
    urls.map_values(|u: String| u@)
}

/// Is this URL already in the list?
fn vec_has_url(urls: &Vec<String>, url: &String) -> (r: bool)
    ensures
        r == has_url_view(urls@, url@),
{
    let n = urls.len();
    let mut i: usize = 0;
    while i < n
        invariant
            0 <= i <= n,
            n == urls@.len(),
            forall|j: int| 0 <= j < i ==> urls@[j]@ != url@,
        decreases n - i,
    {
        if urls[i] == *url {
            return true;
        }
        i = i + 1;
    }
    false
}

/// When the string views agree with the pair URLs, membership agrees too.
proof fn lemma_has_url_agree(urls: Seq<String>, ps: Seq<(Seq<char>, u64)>, u: Seq<char>)
    requires
        url_views(urls) == urls_of(ps),
    ensures
        has_url_view(urls, u) == seq_has_url(ps, u),
{
    assert(url_views(urls).len() == urls.len());
    assert(urls_of(ps).len() == ps.len());
    if has_url_view(urls, u) {
        let i = choose|i: int| 0 <= i < urls.len() && urls[i]@ == u;
        assert(urls_of(ps)[i] == ps[i].0);
        assert(url_views(urls)[i] == urls[i]@);
        assert(seq_has_url(ps, u));
    }
    if seq_has_url(ps, u) {
        let i = choose|i: int| 0 <= i < ps.len() && ps[i].0 == u;
        assert(urls_of(ps)[i] == ps[i].0);
        assert(url_views(urls)[i] == urls[i]@);
        assert(has_url_view(urls, u));
    }
}

/// The finished result: per category, the URLs whose content was new when
/// first seen, in first-encounter order, and the count of distinct
/// fingerprints met in that category.
pub struct UniqueUrls {
    pub json_urls: Vec<String>,
    pub yaml_urls: Vec<String>,
    pub json_count: usize,
    pub yaml_count: usize,
}

/// Both fingerprint sets of the model are finite.
proof fn lemma_run_model_finite(os: Seq<Option<(Seq<char>, Seq<char>)>>)
    ensures
        run_model(os).json_fps.finite(),
        run_model(os).yaml_fps.finite(),
    decreases os.len(),
{
    if os.len() > 0 {
        lemma_run_model_finite(os.drop_last());
    }
}

/// Consume the complete set of fetch outcomes and build the deduplicated
/// result.  The lists and counts are exactly those of the model run over the
/// outcome views, and no URL stands twice in one list.
pub fn extract_unique_urls(outcomes: Vec<FetchOutcome>) -> (r: UniqueUrls)
    ensures
        ({
            let m = run_model(views_of(outcomes@));
            &&& url_views(r.json_urls@) == urls_of(m.json)
            &&& url_views(r.yaml_urls@) == urls_of(m.yaml)
            &&& r.json_count == m.json_fps.len()
            &&& r.yaml_count == m.yaml_fps.len()
        }),
        forall|i: int, j: int|
            0 <= i < j < r.json_urls@.len() ==> r.json_urls@[i]@ != r.json_urls@[j]@,
        forall|i: int, j: int|
            0 <= i < j < r.yaml_urls@.len() ==> r.yaml_urls@[i]@ != r.yaml_urls@[j]@,
        success_urls_distinct(views_of(outcomes@)) ==> forall|u: Seq<char>|
            !(has_url_view(r.json_urls@, u) && has_url_view(r.yaml_urls@, u)),
{
    let ghost vs = views_of(outcomes@);
    let mut json_fps = FingerprintSet::new();
    let mut yaml_fps = FingerprintSet::new();
    let mut json_urls: Vec<String> = Vec::new();
    let mut yaml_urls: Vec<String> = Vec::new();
    let n = outcomes.len();
    proof {
        assert(vs.take(0) =~= Seq::empty());
        assert(url_views(json_urls@) =~= urls_of(init_model().json));
        assert(url_views(yaml_urls@) =~= urls_of(init_model().yaml));
    }
    let mut idx: usize = 0;
    while idx < n
        invariant
            0 <= idx <= n,
            n == outcomes@.len(),
            vs == views_of(outcomes@),
            vs.len() == n,
            fp_set_contents(json_fps) == run_model(vs.take(idx as int)).json_fps,
            fp_set_contents(yaml_fps) == run_model(vs.take(idx as int)).yaml_fps,
            url_views(json_urls@) == urls_of(run_model(vs.take(idx as int)).json),
            url_views(yaml_urls@) == urls_of(run_model(vs.take(idx as int)).yaml),
        decreases n - idx,
    {
        let ghost m = run_model(vs.take(idx as int));
        proof {
            assert(vs.take(idx + 1).drop_last() =~= vs.take(idx as int));
            assert(vs.take(idx + 1).last() == vs[idx as int]);
            assert(vs[idx as int] == outcomes@[idx as int]@);
            assert(run_model(vs.take(idx + 1)) == step_model(m, outcomes@[idx as int]@));
        }
        let o = &outcomes[idx];
        match o {
            FetchOutcome::Failure => {
                proof {
                    assert(step_model(m, outcomes@[idx as int]@) == m);
                }
            },
            FetchOutcome::Success { url, body } => {
                match classify(body.as_str()) {
                    None => {
                        proof {
                            assert(step_model(m, outcomes@[idx as int]@) == m);
                        }
                    },
                    Some((cat, canon)) => {
                        let h = fingerprint(canon.as_str());
                        proof {
                            assert(classified(body@) == Some((cat, canon@)));
                            assert(h == fingerprint_of(canon@));
                        }
                        match cat {
                            Category::Json => {
                                let fresh = json_fps.insert(h);
                                if fresh {
                                    proof {
                                        lemma_has_url_agree(json_urls@, m.json, url@);
                                    }
                                    if !vec_has_url(&json_urls, url) {
                                        let ghost prior = json_urls@;
                                        let u = url.clone();
                                        json_urls.push(u);
                                        proof {
                                            let m2 = step_model(m, outcomes@[idx as int]@);
                                            assert(m2.json == m.json.push((url@, h)));
                                            assert(json_urls@ == prior.push(u));
                                            assert(url_views(json_urls@) =~= url_views(prior).push(url@));
                                            assert(urls_of(m2.json) =~= urls_of(m.json).push(url@));
                                        }
                                    }
                                } else {
                                    proof {
                                        assert(fp_set_contents(json_fps) =~= m.json_fps);
                                        assert(step_model(m, outcomes@[idx as int]@) == m);
                                    }
                                }
                            },
                            Category::Yaml => {
                                let fresh = yaml_fps.insert(h);
                                if fresh {
                                    proof {
                                        lemma_has_url_agree(yaml_urls@, m.yaml, url@);
                                    }
                                    if !vec_has_url(&yaml_urls, url) {
                                        let ghost prior = yaml_urls@;
                                        let u = url.clone();
                                        yaml_urls.push(u);
                                        proof {
                                            let m2 = step_model(m, outcomes@[idx as int]@);
                                            assert(m2.yaml == m.yaml.push((url@, h)));
                                            assert(yaml_urls@ == prior.push(u));
                                            assert(url_views(yaml_urls@) =~= url_views(prior).push(url@));
                                            assert(urls_of(m2.yaml) =~= urls_of(m.yaml).push(url@));
                                        }
                                    }
                                } else {
                                    proof {
                                        assert(fp_set_contents(yaml_fps) =~= m.yaml_fps);
                                        assert(step_model(m, outcomes@[idx as int]@) == m);
                                    }
                                }
                            },
                        }
                    },
                }
            },
        }
        idx = idx + 1;
    }
    proof {
        assert(vs.take(n as int) =~= vs);
        lemma_run_model_finite(vs);
        lemma_run_model_inv(vs);
        lemma_list_urls_distinct(json_urls@, run_model(vs).json);
        lemma_list_urls_distinct(yaml_urls@, run_model(vs).yaml);
        if success_urls_distinct(vs) {
            assert forall|u: Seq<char>|
                !(has_url_view(json_urls@, u) && has_url_view(yaml_urls@, u)) by {
                if has_url_view(json_urls@, u) {
                    lemma_has_url_agree(json_urls@, run_model(vs).json, u);
                    lemma_has_url_agree(yaml_urls@, run_model(vs).yaml, u);
                    lemma_category_exclusive(vs, u);
                }
            }
        }
    }
    let json_count = json_fps.len();
    let yaml_count = yaml_fps.len();
    UniqueUrls { json_urls, yaml_urls, json_count, yaml_count }
}

/// Pairwise-distinct URLs among the pairs.
pub open spec fn pairs_url_distinct(ps: Seq<(Seq<char>, u64)>) -> bool {
    forall|i: int, j: int| 0 <= i < j < ps.len() ==> ps[i].0 != ps[j].0
}

/// Pairwise-distinct fingerprints among the pairs.
pub open spec fn pairs_fp_distinct(ps: Seq<(Seq<char>, u64)>) -> bool {
    forall|i: int, j: int| 0 <= i < j < ps.len() ==> ps[i].1 != ps[j].1
}

/// The standing invariant of the model: every admitted pair's fingerprint is
/// in its category's set, and within each list both URLs and fingerprints
/// are pairwise distinct.
pub open spec fn model_inv(st: AggModel) -> bool {
    &&& forall|i: int| 0 <= i < st.json.len() ==> st.json_fps.contains(#[trigger] st.json[i].1)
    &&& forall|i: int| 0 <= i < st.yaml.len() ==> st.yaml_fps.contains(#[trigger] st.yaml[i].1)
    &&& pairs_url_distinct(st.json)
    &&& pairs_fp_distinct(st.json)
    &&& pairs_url_distinct(st.yaml)
    &&& pairs_fp_distinct(st.yaml)
}

proof fn lemma_step_inv(st: AggModel, o: Option<(Seq<char>, Seq<char>)>)
    requires
        model_inv(st),
    ensures
        model_inv(step_model(st, o)),
{
}

/// The model's invariant holds after any run: it holds of the empty state
/// and every step keeps it.
pub proof fn lemma_run_model_inv(os: Seq<Option<(Seq<char>, Seq<char>)>>)
    ensures
        model_inv(run_model(os)),
    decreases os.len(),
{
    if os.len() > 0 {
        lemma_run_model_inv(os.drop_last());
        lemma_step_inv(run_model(os.drop_last()), os.last());
    }
}

/// A string list whose views are the pair URLs inherits their distinctness.
proof fn lemma_list_urls_distinct(urls: Seq<String>, ps: Seq<(Seq<char>, u64)>)
    requires
        url_views(urls) == urls_of(ps),
        pairs_url_distinct(ps),
    ensures
        forall|i: int, j: int| 0 <= i < j < urls.len() ==> urls[i]@ != urls[j]@,
{
    assert(url_views(urls).len() == urls.len());
    assert(urls_of(ps).len() == ps.len());
    assert forall|i: int, j: int| 0 <= i < j < urls.len() implies urls[i]@ != urls[j]@ by {
        assert(url_views(urls)[i] == urls[i]@);
        assert(url_views(urls)[j] == urls[j]@);
        assert(urls_of(ps)[i] == ps[i].0);
        assert(urls_of(ps)[j] == ps[j].0);
    }
}

/// No duplicate fingerprints per category: any two pairs admitted to one
/// category's list carry distinct fingerprints, over every outcome sequence.
pub proof fn lemma_no_duplicate_fingerprints(os: Seq<Option<(Seq<char>, Seq<char>)>>)
    ensures
        pairs_fp_distinct(run_model(os).json),
        pairs_fp_distinct(run_model(os).yaml),
{
    lemma_run_model_inv(os);
}


/// Does `o` succeed with this URL, and a body classified under `cat`?
pub open spec fn outcome_claims(
    o: Option<(Seq<char>, Seq<char>)>,
    url: Seq<char>,
    cat: Category,
) -> bool {
    match o {
        Some((u, b)) => u == url && (match classified(b) {
            Some((c, _)) => c == cat,
            None => false,
        }),
        None => false,
    }
}

/// Some outcome succeeds with this URL and a body classified under `cat`.
pub open spec fn url_classified_in(
    os: Seq<Option<(Seq<char>, Seq<char>)>>,
    url: Seq<char>,
    cat: Category,
) -> bool {
    exists|i: int| 0 <= i < os.len() && outcome_claims(os[i], url, cat)
}

/// Do two outcomes both succeed, with one URL?
pub open spec fn dup_success_url(
    a: Option<(Seq<char>, Seq<char>)>,
    b: Option<(Seq<char>, Seq<char>)>,
) -> bool {
    match (a, b) {
        (Some(x), Some(y)) => x.0 == y.0,
        _ => false,
    }
}

/// Every two success outcomes carry distinct URLs, as they do when the
/// candidate set was deduplicated before the fetch and each URL was fetched
/// once.
pub open spec fn success_urls_distinct(os: Seq<Option<(Seq<char>, Seq<char>)>>) -> bool {
    forall|i: int, j: int| 0 <= i < j < os.len() ==> !dup_success_url(os[i], os[j])
}

/// A URL standing in a list after one step stood there before, or was put
/// there by that outcome, classified under that list's category.
proof fn lemma_step_provenance(st: AggModel, o: Option<(Seq<char>, Seq<char>)>, u: Seq<char>)
    ensures
        seq_has_url(step_model(st, o).json, u) ==> seq_has_url(st.json, u) || outcome_claims(
            o,
            u,
            Category::Json,
        ),
        seq_has_url(step_model(st, o).yaml, u) ==> seq_has_url(st.yaml, u) || outcome_claims(
            o,
            u,
            Category::Yaml,
        ),
{
    let st2 = step_model(st, o);
    if seq_has_url(st2.json, u) && !seq_has_url(st.json, u) {
        let i = choose|i: int| 0 <= i < st2.json.len() && st2.json[i].0 == u;
        assert(st2.json != st.json);
        assert(st2.json.last().0 == u || seq_has_url(st.json, u)) by {
            if i < st2.json.len() - 1 {
                assert(st2.json[i] == st.json[i]);
                assert(seq_has_url(st.json, u));
            }
        }
    }
    if seq_has_url(st2.yaml, u) && !seq_has_url(st.yaml, u) {
        let i = choose|i: int| 0 <= i < st2.yaml.len() && st2.yaml[i].0 == u;
        assert(st2.yaml != st.yaml);
        assert(st2.yaml.last().0 == u || seq_has_url(st.yaml, u)) by {
            if i < st2.yaml.len() - 1 {
                assert(st2.yaml[i] == st.yaml[i]);
                assert(seq_has_url(st.yaml, u));
            }
        }
    }
}

/// Every URL in a category's list was put there by a success outcome whose
/// body classified under that category.
proof fn lemma_run_provenance(os: Seq<Option<(Seq<char>, Seq<char>)>>)
    ensures
        forall|u: Seq<char>| #[trigger] seq_has_url(run_model(os).json, u) ==> url_classified_in(
            os,
            u,
            Category::Json,
        ),
        forall|u: Seq<char>| #[trigger] seq_has_url(run_model(os).yaml, u) ==> url_classified_in(
            os,
            u,
            Category::Yaml,
        ),
    decreases os.len(),
{
    if os.len() == 0 {
        assert(run_model(os).json.len() == 0);
        assert(run_model(os).yaml.len() == 0);
    } else {
        let prev = os.drop_last();
        lemma_run_provenance(prev);
        let stp = run_model(prev);
        assert(run_model(os) == step_model(stp, os.last()));
        assert forall|u: Seq<char>| #[trigger] seq_has_url(run_model(os).json, u)
            implies url_classified_in(os, u, Category::Json) by {
            lemma_step_provenance(stp, os.last(), u);
            if seq_has_url(stp.json, u) {
                assert(url_classified_in(prev, u, Category::Json));
                let i = choose|i: int| 0 <= i < prev.len() && outcome_claims(
                    prev[i],
                    u,
                    Category::Json,
                );
                assert(os[i] == prev[i]);
                assert(url_classified_in(os, u, Category::Json));
            } else {
                assert(outcome_claims(os.last(), u, Category::Json));
                assert(os[os.len() - 1] == os.last());
                assert(url_classified_in(os, u, Category::Json));
            }
        }
        assert forall|u: Seq<char>| #[trigger] seq_has_url(run_model(os).yaml, u)
            implies url_classified_in(os, u, Category::Yaml) by {
            lemma_step_provenance(stp, os.last(), u);
            if seq_has_url(stp.yaml, u) {
                assert(url_classified_in(prev, u, Category::Yaml));
                let i = choose|i: int| 0 <= i < prev.len() && outcome_claims(
                    prev[i],
                    u,
                    Category::Yaml,
                );
                assert(os[i] == prev[i]);
                assert(url_classified_in(os, u, Category::Yaml));
            } else {
                assert(outcome_claims(os.last(), u, Category::Yaml));
                assert(os[os.len() - 1] == os.last());
                assert(url_classified_in(os, u, Category::Yaml));
            }
        }
    }
}

/// Category exclusivity: when every success outcome carries its own URL, no
/// URL stands in both categories' lists.
pub proof fn lemma_category_exclusive(os: Seq<Option<(Seq<char>, Seq<char>)>>, u: Seq<char>)
    requires
        success_urls_distinct(os),
        seq_has_url(run_model(os).json, u),
    ensures
        !seq_has_url(run_model(os).yaml, u),
{
    lemma_run_provenance(os);
    if seq_has_url(run_model(os).yaml, u) {
        let i = choose|i: int| 0 <= i < os.len() && outcome_claims(os[i], u, Category::Json);
        let j = choose|j: int| 0 <= j < os.len() && outcome_claims(os[j], u, Category::Yaml);
        if i < j {
            assert(dup_success_url(os[i], os[j]));
        } else if j < i {
            assert(dup_success_url(os[j], os[i]));
        } else {
            assert(outcome_claims(os[i], u, Category::Json) && outcome_claims(
                os[i],
                u,
                Category::Yaml,
            ));
        }
    }
}

} // verus!
