//! The versions of R that are published, and the choice among them.
use vstd::prelude::*;

use crate::error::{ErrorView, UvrError};
use crate::order::{are_before, is_weak_order, numbers_are_ordered, numbers_before, slot_by, sorted_by, sorted_by_is_sorted};
use crate::r_version::host::{is_channel, is_published, is_rolling_channel, parse_r_version, portable_publishes, r_numbers,
    Platform};
use crate::text::{all_digits, chars_of, holds_text, only_digits, opt_view, pieces, same, same_str, slice_views, split, views};

verus! {

/// Each part is a number.
pub open spec fn all_numbers(parts: Seq<Seq<char>>) -> bool {
    forall|i: int| 0 <= i < parts.len() ==> (#[trigger] parts[i]).len() > 0 && all_digits(parts[i])
}

fn are_numbers(parts: &Vec<&[char]>) -> (r: bool)
    ensures
        r == all_numbers(slice_views(parts@)),
{
    let ghost all = slice_views(parts@);
    let mut i: usize = 0;
    while i < parts.len()
        invariant
            i <= parts@.len(),
            all == slice_views(parts@),
            forall|j: int| 0 <= j < i ==> (#[trigger] all[j]).len() > 0 && all_digits(all[j]),
        decreases parts@.len() - i,
    {
        assert(all[i as int] == parts@[i as int]@);
        if parts[i].len() == 0 || !only_digits(parts[i]) {
            return false;
        }
        i += 1;
    }
    true
}

/// A full version of R: three numbers, or four where the last counts builds.
pub open spec fn is_full_version(s: Seq<char>) -> bool {
    let p = split(s, '.');
    3 <= p.len() <= 4 && all_numbers(p)
}

/// Whether the text is a full version of R; see [`is_full_version`].
pub fn is_real_r_version(s: &str) -> (r: bool)
    ensures
        r == is_full_version(s@),
{
    let cs = chars_of(s);
    let ps = pieces(cs.as_slice(), '.');
    assert(slice_views(ps@) == split(s@, '.'));
    if ps.len() < 3 || ps.len() > 4 {
        return false;
    }
    are_numbers(&ps)
}

/// The shape of a version of R, of which the end may be missing: two to four numbers.
pub open spec fn is_version_shaped(s: Seq<char>) -> bool {
    let p = split(s, '.');
    2 <= p.len() <= 4 && all_numbers(p)
}

/// Whether the text has the shape of a version of R; see [`is_version_shaped`].
pub fn is_plausible_r_version(s: &str) -> (r: bool)
    ensures
        r == is_version_shaped(s@),
{
    let cs = chars_of(s);
    let ps = pieces(cs.as_slice(), '.');
    assert(slice_views(ps@) == split(s@, '.'));
    if ps.len() < 2 || ps.len() > 4 {
        return false;
    }
    are_numbers(&ps)
}

/// The parts of `prefix` are the first parts of `version`.
pub open spec fn has_parts(prefix: Seq<char>, version: Seq<char>) -> bool {
    split(prefix, '.').is_prefix_of(split(version, '.'))
}

/// Whether the parts of `prefix` are the first parts of `version`.
pub fn version_matches_prefix(prefix: &str, version: &str) -> (r: bool)
    ensures
        r == has_parts(prefix@, version@),
{
    let a = chars_of(prefix);
    let b = chars_of(version);
    let ps = pieces(a.as_slice(), '.');
    let vs = pieces(b.as_slice(), '.');
    let ghost p = split(prefix@, '.');
    let ghost v = split(version@, '.');
    assert(slice_views(ps@) == p && slice_views(vs@) == v);
    if ps.len() > vs.len() {
        return false;
    }
    let mut i: usize = 0;
    while i < ps.len()
        invariant
            i <= ps@.len() <= vs@.len(),
            slice_views(ps@) == p,
            slice_views(vs@) == v,
            p == split(prefix@, '.'),
            v == split(version@, '.'),
            forall|j: int| 0 <= j < i ==> #[trigger] p[j] == v[j],
        decreases ps@.len() - i,
    {
        assert(p[i as int] == ps@[i as int]@ && v[i as int] == vs@[i as int]@);
        if !same(ps[i], vs[i]) {
            assert(p.len() <= v.len() && p[i as int] != v.subrange(0, p.len() as int)[i as int]);
            return false;
        }
        i += 1;
    }
    assert(p =~= v.subrange(0, p.len() as int));
    true
}

/// The last of the versions before position `j` that begins with the parts given.
pub open spec fn last_with_parts(available: Seq<Seq<char>>, prefix: Seq<char>, j: int) -> Option<Seq<char>>
    decreases j,
{
    if j <= 0 {
        None
    } else if has_parts(prefix, available[j - 1]) {
        Some(available[j - 1])
    } else {
        last_with_parts(available, prefix, j - 1)
    }
}

/// The newest of the versions, which are ordered from the oldest on, that begins with
/// the parts given.
pub fn pick_newest_matching(available: &Vec<String>, prefix: &str) -> (r: Option<String>)
    ensures
        opt_view(r) == last_with_parts(views(available@), prefix@, available@.len() as int),
{
    let ghost all = views(available@);
    let mut j: usize = available.len();
    while j > 0
        invariant
            j <= available@.len(),
            all == views(available@),
            last_with_parts(all, prefix@, available@.len() as int) == last_with_parts(all, prefix@, j as int),
        decreases j,
    {
        assert(all[j - 1] == available@[j - 1]@);
        if version_matches_prefix(prefix, available[j - 1].as_str()) {
            return Some(available[j - 1].as_str().to_owned());
        }
        j -= 1;
    }
    None
}

/// What is published for a platform.
#[derive(Debug, Clone)]
pub struct AvailableVersions {
    /// The numbered releases, from the oldest on.
    pub stable: Vec<String>,
    /// The channels, which are names and not points among the releases.
    pub rolling: Vec<String>,
}

/// The numbers by which releases are ordered.
pub open spec fn release_rank(v: Seq<char>) -> Seq<u32> {
    match r_numbers(v) {
        Some((a, b, c)) => seq![a as u32, b as u32, c as u32],
        None => seq![],
    }
}

/// `a` is released before `b`.
pub open spec fn released_before(a: Seq<char>, b: Seq<char>) -> bool {
    numbers_before(release_rank(a), release_rank(b))
}

fn rank_of(v: &str) -> (r: Vec<u32>)
    ensures
        r@ == release_rank(v@),
{
    match parse_r_version(v) {
        Some((a, b, c)) => vec![a, b, c],
        None => Vec::new(),
    }
}

fn is_released_before(a: &str, b: &str) -> (r: bool)
    ensures
        r == released_before(a@, b@),
{
    are_before(&rank_of(a), &rank_of(b))
}

/// A label of the index that is a release published for the platform.
pub open spec fn is_release_for(label: Seq<char>, p: Platform) -> bool {
    is_full_version(label) && (r_numbers(label) matches Some((a, b, c)) && is_published(p, (a as u32, b as u32, c as u32)))
}

fn release_is_for(label: &str, platform: Platform) -> (r: bool)
    ensures
        r == is_release_for(label@, platform),
{
    if !is_real_r_version(label) {
        return false;
    }
    match parse_r_version(label) {
        Some((a, b, c)) => {
            assert((a as nat) as u32 == a && (b as nat) as u32 == b && (c as nat) as u32 == c);
            portable_publishes(platform, (a, b, c))
        },
        None => false,
    }
}

/// The texts without those that repeat their neighbour.
pub open spec fn without_repeats(s: Seq<Seq<char>>) -> Seq<Seq<char>>
    decreases s.len(),
{
    if s.len() == 0 {
        s
    } else {
        let front = without_repeats(s.drop_last());
        if s.len() > 1 && s[s.len() - 2] == s.last() {
            front
        } else {
            front.push(s.last())
        }
    }
}

/// The releases among the labels of the index that are published for the platform,
/// from the oldest on.
pub open spec fn releases(labels: Seq<Seq<char>>, p: Platform) -> Seq<Seq<char>> {
    without_repeats(
        sorted_by(
            labels.filter(|l: Seq<char>| is_release_for(l, p)),
            |a: Seq<char>, b: Seq<char>| released_before(a, b),
        ),
    )
}

/// The channels among the labels of the index.
pub open spec fn channels(labels: Seq<Seq<char>>) -> Seq<Seq<char>> {
    let d = if labels.contains("devel"@) {
        seq!["devel"@]
    } else {
        seq![]
    };
    if labels.contains("next"@) {
        d.push("next"@)
    } else {
        d
    }
}

fn releases_among(labels: &Vec<String>, platform: Platform) -> (r: Vec<String>)
    ensures
        views(r@) == views(labels@).filter(|l: Seq<char>| is_release_for(l, platform)),
{
    let ghost all = views(labels@);
    let ghost keep = |l: Seq<char>| is_release_for(l, platform);
    let mut out: Vec<String> = Vec::new();
    let mut i: usize = 0;
    proof {
        reveal(Seq::filter);
        assert(all.take(0).filter(keep) == Seq::<Seq<char>>::empty());
        assert(views(out@) == Seq::<Seq<char>>::empty());
    }
    while i < labels.len()
        invariant
            i <= labels@.len(),
            all == views(labels@),
            keep == (|l: Seq<char>| is_release_for(l, platform)),
            views(out@) == all.take(i as int).filter(keep),
        decreases labels@.len() - i,
    {
        proof {
            reveal(Seq::filter);
            assert(all[i as int] == labels@[i as int]@);
            assert(all.take(i + 1).drop_last() == all.take(i as int));
        }
        if release_is_for(labels[i].as_str(), platform) {
            let ghost before = out@;
            out.push(labels[i].as_str().to_owned());
            assert(views(out@) == views(before).push(all[i as int]));
        }
        i += 1;
    }
    assert(all.take(i as int) == all);
    out
}

fn sorted_releases(labels: Vec<String>) -> (r: Vec<String>)
    ensures
        views(r@) == sorted_by(views(labels@), |a: Seq<char>, b: Seq<char>| released_before(a, b)),
{
    let ghost all = views(labels@);
    let ghost before = |a: Seq<char>, b: Seq<char>| released_before(a, b);
    let mut rest: Vec<String> = labels;
    let mut out: Vec<String> = Vec::new();
    proof {
        assert(all.skip(all.len() as int) == Seq::<Seq<char>>::empty());
        assert(views(out@) == Seq::<Seq<char>>::empty());
        assert(views(rest@) == all.take(all.len() as int));
    }
    while rest.len() > 0
        invariant
            before == (|a: Seq<char>, b: Seq<char>| released_before(a, b)),
            rest@.len() <= all.len(),
            views(rest@) == all.take(rest@.len() as int),
            views(out@) == sorted_by(all.skip(rest@.len() as int), before),
        decreases rest@.len(),
    {
        let ghost n = rest@.len() as int;
        let ghost whole = rest@;
        match rest.pop() {
            Some(x) => {
                let ghost o = views(out@);
                let mut i: usize = 0;
                while i < out.len() && is_released_before(out[i].as_str(), x.as_str())
                    invariant
                        i <= out@.len(),
                        o == views(out@),
                        before == (|a: Seq<char>, b: Seq<char>| released_before(a, b)),
                        slot_by(o, x@, before, 0) == slot_by(o, x@, before, i as int),
                    decreases out@.len() - i,
                {
                    assert(o[i as int] == out@[i as int]@);
                    i += 1;
                }
                proof {
                    if i < o.len() {
                        assert(o[i as int] == out@[i as int]@);
                    }
                    let s = all.skip(n - 1);
                    assert(views(whole)[n - 1] == x@);
                    assert(s[0] == x@);
                    assert(s.drop_first() == all.skip(n));
                    assert(views(rest@) == all.take(n - 1)) by {
                        assert(views(rest@) == views(whole).drop_last());
                    }
                }
                let ghost prev = out@;
                out.insert(i, x);
                assert(views(out@) == views(prev).insert(i as int, x@));
            },
            None => {},
        }
    }
    assert(all.skip(0) == all);
    out
}

fn repeats_removed(v: Vec<String>) -> (r: Vec<String>)
    ensures
        views(r@) == without_repeats(views(v@)),
{
    let ghost all = views(v@);
    let mut out: Vec<String> = Vec::new();
    let mut i: usize = 0;
    assert(all.take(0) == Seq::<Seq<char>>::empty());
    assert(views(out@) == Seq::<Seq<char>>::empty());
    while i < v.len()
        invariant
            i <= v@.len(),
            all == views(v@),
            views(out@) == without_repeats(all.take(i as int)),
        decreases v@.len() - i,
    {
        proof {
            assert(all[i as int] == v@[i as int]@);
            assert(all.take(i + 1).drop_last() == all.take(i as int));
            assert(all.take(i + 1).last() == all[i as int]);
            if i > 0 {
                assert(all[i - 1] == v@[i - 1]@);
                assert(all.take(i + 1)[i - 1] == all[i - 1]);
            }
        }
        if i == 0 || !same_str(v[i - 1].as_str(), v[i].as_str()) {
            let ghost before = out@;
            out.push(v[i].as_str().to_owned());
            assert(views(out@) == views(before).push(all[i as int]));
        }
        i += 1;
    }
    assert(all.take(i as int) == all);
    out
}

impl AvailableVersions {
    /// What is published for a platform, from the labels of the index.
    pub fn from_labels(labels: &Vec<String>, platform: Platform) -> (r: AvailableVersions)
        ensures
            views(r.stable@) == releases(views(labels@), platform),
            views(r.rolling@) == channels(views(labels@)),
    {
        let stable = repeats_removed(sorted_releases(releases_among(labels, platform)));
        let mut rolling: Vec<String> = Vec::new();
        assert(views(rolling@) == Seq::<Seq<char>>::empty());
        if holds_text(labels, "devel") {
            rolling.push("devel".to_owned());
            assert(views(rolling@) == seq!["devel"@]);
        }
        let ghost before = rolling@;
        if holds_text(labels, "next") {
            rolling.push("next".to_owned());
            assert(views(rolling@) == views(before).push("next"@));
        }
        AvailableVersions { stable, rolling }
    }
}

/// The texts of an array in a JSON object, in order, with none for an element that is
/// no text. There is no array where the object has none under the key, and an error
/// where the data is not JSON.
pub uninterp spec fn json_texts(data: Seq<u8>, key: Seq<char>) -> Result<Option<Seq<Option<Seq<char>>>>, Seq<char>>;

/// The texts of an array, as mathematical values.
pub open spec fn opt_views(v: Seq<Option<String>>) -> Seq<Option<Seq<char>>> {
    v.map_values(|s: Option<String>| opt_view(s))
}

/// `serde_json::from_slice` reads the data as a `serde_json::Value`; `get` and
/// `as_array` give the array under the key, and `as_str` the text of each of its
/// elements. That this depends on the data and the key alone is all that is claimed.
#[verifier::external_body]
fn read_json_texts(data: &[u8], key: &str) -> (r: Result<Option<Vec<Option<String>>>, String>)
    ensures
        match r {
            Ok(Some(v)) => json_texts(data@, key@) == Ok::<Option<Seq<Option<Seq<char>>>>, Seq<char>>(Some(opt_views(v@))),
            Ok(None) => json_texts(data@, key@) == Ok::<Option<Seq<Option<Seq<char>>>>, Seq<char>>(None),
            Err(e) => json_texts(data@, key@) == Err::<Option<Seq<Option<Seq<char>>>>, Seq<char>>(e@),
        },
{
    match serde_json::from_slice::<serde_json::Value>(data) {
        Ok(json) => Ok(
            json.get(key).and_then(|v| v.as_array()).map(
                |a| a.iter().map(|v| v.as_str().map(|s| s.to_owned())).collect(),
            ),
        ),
        Err(e) => Err(e.to_string()),
    }
}

/// The texts that are there, in order.
pub open spec fn present(s: Seq<Option<Seq<char>>>) -> Seq<Seq<char>>
    decreases s.len(),
{
    if s.len() == 0 {
        seq![]
    } else {
        match s.last() {
            Some(t) => present(s.drop_last()).push(t),
            None => present(s.drop_last()),
        }
    }
}

/// What is said of an index that could not be read.
pub open spec fn index_labels(read: Result<Option<Seq<Option<Seq<char>>>>, Seq<char>>) -> Result<Seq<Seq<char>>, ErrorView> {
    match read {
        Ok(Some(a)) => Ok(present(a)),
        Ok(None) => Err(ErrorView::Other("versions.json missing `r_versions` array"@)),
        Err(e) => Err(ErrorView::Other("Failed to parse versions.json: "@ + e)),
    }
}

/// An index that was read, as a mathematical value.
pub open spec fn read_view(read: Result<Option<Vec<Option<String>>>, String>) -> Result<
    Option<Seq<Option<Seq<char>>>>,
    Seq<char>,
> {
    match read {
        Ok(Some(a)) => Ok(Some(opt_views(a@))),
        Ok(None) => Ok(None),
        Err(e) => Err(e@),
    }
}

/// The labels of an index that was read; see [`index_labels`].
pub fn labels_of_index(read: Result<Option<Vec<Option<String>>>, String>) -> (r: Result<Vec<String>, UvrError>)
    ensures
        match r {
            Ok(v) => index_labels(read_view(read)) == Ok::<Seq<Seq<char>>, ErrorView>(views(v@)),
            Err(e) => index_labels(read_view(read)) == Err::<Seq<Seq<char>>, ErrorView>(e@),
        },
{
    let elements = match read {
        Ok(Some(a)) => a,
        Ok(None) => {
            return Err(UvrError::Other("versions.json missing `r_versions` array".to_owned()));
        },
        Err(e) => {
            return Err(UvrError::Other("Failed to parse versions.json: ".to_owned().concat(e.as_str())));
        },
    };
    let ghost all = opt_views(elements@);
    let mut out: Vec<String> = Vec::new();
    let mut i: usize = 0;
    assert(all.take(0) == Seq::<Option<Seq<char>>>::empty());
    assert(views(out@) == Seq::<Seq<char>>::empty());
    while i < elements.len()
        invariant
            i <= elements@.len(),
            all == opt_views(elements@),
            views(out@) == present(all.take(i as int)),
        decreases elements@.len() - i,
    {
        proof {
            assert(all[i as int] == opt_view(elements@[i as int]));
            assert(all.take(i + 1).drop_last() == all.take(i as int));
        }
        if let Some(s) = &elements[i] {
            let ghost before = out@;
            out.push(s.as_str().to_owned());
            assert(views(out@) == views(before).push(s@));
        }
        i += 1;
    }
    assert(all.take(i as int) == all);
    Ok(out)
}

/// What is published for a platform, from the index.
pub fn available_from_index(data: &[u8], platform: Platform) -> (r: Result<AvailableVersions, UvrError>)
    ensures
        match (r, index_labels(json_texts(data@, "r_versions"@))) {
            (Ok(v), Ok(labels)) => views(v.stable@) == releases(labels, platform) && views(v.rolling@) == channels(labels),
            (Err(e), Err(f)) => e@ == f,
            _ => false,
        },
{
    match labels_of_index(read_json_texts(data, "r_versions")) {
        Ok(labels) => Ok(AvailableVersions::from_labels(&labels, platform)),
        Err(e) => Err(e),
    }
}

/// What a request for a version comes to before the index is read.
#[derive(Debug, Clone, PartialEq, Eq)]
pub enum VersionRequest {
    /// It is installed under the name given.
    Ready(String),
    /// The index says which release it stands for.
    NeedsIndex,
}

/// What is said of a request that is no version.
pub open spec fn no_version(version: Seq<char>) -> Seq<char> {
    "`"@ + version
        + "` is not a valid R version. Expected `X.Y.Z` (e.g. 4.5.1), a partial `X.Y` (e.g. 4.5, which installs the newest 4.5.x), or a rolling channel (`devel`, `next`)."@
}

/// What a request for a version comes to. A full version and a channel are taken as
/// they are, and what has not the shape of a version is refused.
pub fn classify_request(version: &str) -> (r: Result<VersionRequest, UvrError>)
    ensures
        if is_full_version(version@) || is_channel(version@) {
            r matches Ok(VersionRequest::Ready(v)) && v@ == version@
        } else if is_version_shaped(version@) {
            r matches Ok(VersionRequest::NeedsIndex)
        } else {
            r matches Err(e) && e@ == ErrorView::Other(no_version(version@))
        },
{
    if is_real_r_version(version) || is_rolling_channel(version) {
        return Ok(VersionRequest::Ready(version.to_owned()));
    }
    if is_plausible_r_version(version) {
        return Ok(VersionRequest::NeedsIndex);
    }
    Err(
        UvrError::Other(
            "`".to_owned().concat(version).concat(
                "` is not a valid R version. Expected `X.Y.Z` (e.g. 4.5.1), a partial `X.Y` (e.g. 4.5, which installs the newest 4.5.x), or a rolling channel (`devel`, `next`).",
            ),
        ),
    )
}

/// The release that a request for a version stands for.
pub fn choose_release(version: &str, available: &AvailableVersions) -> (r: Result<String, UvrError>)
    ensures
        match last_with_parts(views(available.stable@), version@, available.stable@.len() as int) {
            Some(v) => r matches Ok(s) && s@ == v,
            None => r matches Err(e) && e@ == ErrorView::Other(
                "No published R version matches "@ + version@
                    + " for your platform. See `uvr r list --all` for available versions."@,
            ),
        },
{
    match pick_newest_matching(&available.stable, version) {
        Some(v) => Ok(v),
        None => Err(
            UvrError::Other(
                "No published R version matches ".to_owned().concat(version).concat(
                    " for your platform. See `uvr r list --all` for available versions.",
                ),
            ),
        ),
    }
}

/// What is suggested when a version is not published: the newest release, where any
/// is known.
pub open spec fn suggestion(stable: Seq<Seq<char>>) -> Seq<char> {
    if stable.len() > 0 {
        "\nLatest available for your platform: "@ + stable.last() + ".\nTry `uvr r install "@ + stable.last()
            + "`, or `uvr r list --all` to see every published version."@
    } else {
        "\nCheck available versions with `uvr r list --all`. If R was just released, the portable build for your platform may not be published yet — try again later."@
    }
}

/// What is said when the server has no build of a version. `stable` are the releases
/// that the index has, none where it could not be had.
pub fn version_not_found_error(version: &str, status: &str, stable: &Vec<String>) -> (r: UvrError)
    ensures
        r@ == ErrorView::Other(
            "R "@ + version@ + " is not published for your platform (HTTP "@ + status@ + ")."@ + suggestion(
                views(stable@),
            ),
        ),
{
    let n: usize = stable.len();
    let hint = if n > 0 {
        assert(views(stable@).last() == stable@[n - 1]@);
        let latest = stable[n - 1].as_str();
        "\nLatest available for your platform: ".to_owned().concat(latest).concat(".\nTry `uvr r install ").concat(
            latest,
        ).concat("`, or `uvr r list --all` to see every published version.")
    } else {
        "\nCheck available versions with `uvr r list --all`. If R was just released, the portable build for your platform may not be published yet — try again later.".to_owned()
    };
    UvrError::Other(
        "R ".to_owned().concat(version).concat(" is not published for your platform (HTTP ").concat(status).concat(
            ").",
        ).concat(hint.as_str()),
    )
}

/// A channel is no version: it is neither full nor has it the shape of one.
pub proof fn channels_are_no_versions(s: Seq<char>)
    requires
        is_channel(s),
    ensures
        !is_full_version(s),
        !is_version_shaped(s),
{
    reveal_strlit("devel");
    reveal_strlit("next");
    assert forall|i: int| 0 <= i <= s.len() implies (#[trigger] crate::text::split_from(s, '.', 0, i)).len() == 1 by {
        lemma_no_dot(s, i);
    }
    assert(split(s, '.').len() == 1);
}

proof fn lemma_no_dot(s: Seq<char>, i: int)
    requires
        0 <= i <= s.len(),
        forall|j: int| 0 <= j < s.len() ==> s[j] != '.',
    ensures
        crate::text::split_from(s, '.', 0, i).len() == 1,
    decreases s.len() - i,
{
    if i < s.len() {
        lemma_no_dot(s, i + 1);
    }
}

/// The releases come from the oldest on.
pub proof fn releases_are_in_order(labels: Seq<Seq<char>>, p: Platform)
    ensures
        forall|i: int, j: int|
            0 <= i < j < releases(labels, p).len() ==> !released_before(
                #[trigger] releases(labels, p)[j],
                #[trigger] releases(labels, p)[i],
            ),
{
    let kept = labels.filter(|l: Seq<char>| is_release_for(l, p));
    let before = |a: Seq<char>, b: Seq<char>| released_before(a, b);
    assert(is_weak_order(before)) by {
        assert forall|a: Seq<char>, b: Seq<char>| #[trigger] before(a, b) implies !before(b, a) by {
            numbers_are_ordered(release_rank(a), release_rank(b), release_rank(a));
        }
        assert forall|a: Seq<char>, b: Seq<char>, c: Seq<char>|
            before(a, b) && #[trigger] before(b, c) implies #[trigger] before(a, c) by {
            numbers_are_ordered(release_rank(a), release_rank(b), release_rank(c));
        }
        assert forall|a: Seq<char>, b: Seq<char>, c: Seq<char>|
            !before(a, b) && !(#[trigger] before(b, c)) implies !(#[trigger] before(a, c)) by {
            numbers_are_ordered(release_rank(a), release_rank(b), release_rank(c));
        }
    }
    sorted_by_is_sorted(kept, before);
    let s = sorted_by(kept, before);
    assert forall|i: int, j: int| 0 <= i < j < s.len() implies !released_before(#[trigger] s[j], #[trigger] s[i]) by {
        assert(!before(s[j], s[i]));
    }
    lemma_repeats_keep_order(s);
}

proof fn lemma_repeats_keep_order(s: Seq<Seq<char>>)
    requires
        forall|i: int, j: int| 0 <= i < j < s.len() ==> !released_before(#[trigger] s[j], #[trigger] s[i]),
    ensures
        forall|i: int, j: int|
            0 <= i < j < without_repeats(s).len() ==> !released_before(
                #[trigger] without_repeats(s)[j],
                #[trigger] without_repeats(s)[i],
            ),
        forall|i: int| 0 <= i < without_repeats(s).len() ==> s.contains(#[trigger] without_repeats(s)[i]),
    decreases s.len(),
{
    if s.len() > 0 {
        let f = s.drop_last();
        lemma_repeats_keep_order(f);
        let front = without_repeats(f);
        assert forall|i: int| 0 <= i < front.len() implies s.contains(#[trigger] front[i]) && !released_before(
            s.last(),
            front[i],
        ) by {
            let k = f.index_of(front[i]);
            assert(f.contains(front[i]));
            assert(s[k] == front[i]);
            assert(!released_before(s[s.len() - 1], s[k]));
        }
    }
}

} // verus!
