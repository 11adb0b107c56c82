//! The icon resolver: turns a raw icon reference (empty, an absolute path,
//! or a bare theme-icon name) into a concrete image path through a tiered
//! fallback pipeline — existing absolute path, theme lookup scored by
//! desirability, constructed high-resolution candidates, universal fallback.

use vstd::prelude::*;
use crate::strutil::{
    concat3, concat4, contains_seq, ends_with_seq, rfind_char, last_index_of, str_contains,
    str_ends_with,
};

verus! {

/// Desirability of a candidate icon path: scalable vector art scores 5,
/// then fixed raster sizes from 512 down to 64 pixels, anything else 0.
pub open spec fn score_spec(p: Seq<char>) -> int {
    if ends_with_seq(p, ".svg"@) || contains_seq(p, "/scalable/"@) {
        5
    } else if contains_seq(p, "512x512"@) {
        4
    } else if contains_seq(p, "256x256"@) {
        3
    } else if contains_seq(p, "128x128"@) {
        2
    } else if contains_seq(p, "64x64"@) {
        1
    } else {
        0
    }
}

/// Scores a candidate icon path by desirability; higher is better.
pub fn score_path(path: &str) -> (r: i32)
    ensures
        r as int == score_spec(path@),
        0 <= r <= 5,
{
    if str_ends_with(path, ".svg") || str_contains(path, "/scalable/") {
        5
    } else if str_contains(path, "512x512") {
        4
    } else if str_contains(path, "256x256") {
        3
    } else if str_contains(path, "128x128") {
        2
    } else if str_contains(path, "64x64") {
        1
    } else {
        0
    }
}

/// One scan step over the remaining candidates: the first candidate seen
/// becomes the best, a later one replaces it only when its score strictly
/// exceeds the best score, and scanning stops once the maximum score is
/// reached.
pub open spec fn scan_spec(
    cands: Seq<Seq<char>>,
    best: Option<Seq<char>>,
    best_score: int,
) -> Option<Seq<char>>
    decreases cands.len(),
{
    if cands.len() == 0 || best_score >= 5 {
        best
    } else if best is None || score_spec(cands[0]) > best_score {
        scan_spec(cands.drop_first(), Some(cands[0]), score_spec(cands[0]))
    } else {
        scan_spec(cands.drop_first(), best, best_score)
    }
}

/// The candidate the lookup scan settles on: at most the first 15 entries
/// are inspected, and a non-empty list always yields its earliest
/// best-scoring member, a score of 0 included.
pub open spec fn pick_spec(cands: Seq<Seq<char>>) -> Option<Seq<char>> {
    let limit = if cands.len() <= 15 {
        cands.len() as int
    } else {
        15
    };
    scan_spec(cands.take(limit), None, 0)
}

proof fn lemma_scan_stays_some(cands: Seq<Seq<char>>, b: Seq<char>, sc: int)
    ensures
        scan_spec(cands, Some(b), sc) is Some,
    decreases cands.len(),
{
    if cands.len() == 0 || sc >= 5 {
    } else if score_spec(cands[0]) > sc {
        lemma_scan_stays_some(cands.drop_first(), cands[0], score_spec(cands[0]));
    } else {
        lemma_scan_stays_some(cands.drop_first(), b, sc);
    }
}

/// The scan settles exactly when there is a candidate: any found candidate
/// set yields its best-scoring member.
pub proof fn lemma_pick_settles(cands: Seq<Seq<char>>)
    ensures
        pick_spec(cands) is Some <==> cands.len() > 0,
{
    let limit = if cands.len() <= 15 { cands.len() as int } else { 15 };
    let t = cands.take(limit);
    if cands.len() == 0 {
        assert(t =~= Seq::<Seq<char>>::empty());
    } else {
        assert(t.len() > 0);
        lemma_scan_stays_some(t.drop_first(), t[0], score_spec(t[0]));
    }
}

proof fn lemma_scan_member(cands: Seq<Seq<char>>, best: Option<Seq<char>>, sc: int)
    ensures
        scan_spec(cands, best, sc) matches Some(p) ==> best == Some(p) || cands.contains(p),
    decreases cands.len(),
{
    if cands.len() == 0 || sc >= 5 {
    } else {
        let rest = cands.drop_first();
        if best is None || score_spec(cands[0]) > sc {
            lemma_scan_member(rest, Some(cands[0]), score_spec(cands[0]));
        } else {
            lemma_scan_member(rest, best, sc);
        }
        match scan_spec(cands, best, sc) {
            Some(p) => {
                if best != Some(p) {
                    if p == cands[0] {
                        assert(cands.contains(p)) by {
                            assert(cands[0] == p);
                        }
                    } else if rest.contains(p) {
                        let j = choose|j: int| 0 <= j < rest.len() && rest[j] == p;
                        assert(cands[j + 1] == p);
                    }
                }
            },
            None => {},
        }
    }
}

/// The candidate the scan settles on is one of the candidates.
pub proof fn lemma_pick_member(cands: Seq<Seq<char>>)
    ensures
        pick_spec(cands) matches Some(p) ==> cands.contains(p),
{
    let limit = if cands.len() <= 15 { cands.len() as int } else { 15 };
    let t = cands.take(limit);
    lemma_scan_member(t, None, 0);
    match pick_spec(cands) {
        Some(p) => {
            assert(t.contains(p));
            let j = choose|j: int| 0 <= j < t.len() && t[j] == p;
            assert(cands[j] == p);
        },
        None => {},
    }
}

/// The settled icon is a function of the candidate list alone: two results
/// that the scan decides on the same list agree.
pub proof fn lemma_settling_deterministic(cands: Seq<Seq<char>>, r1: Seq<char>, r2: Seq<char>)
    requires
        pick_spec(cands) == Some(r1),
        pick_spec(cands) == Some(r2),
    ensures
        r1 == r2,
{
}

/// Scans a list of candidate icon paths and returns the best-scoring one,
/// exactly as [`pick_spec`] describes.
pub fn pick_lookup_candidate(cands: &Vec<String>) -> (r: Option<String>)
    ensures
        r.deep_view() == pick_spec(cands.deep_view()),
{
    let ghost dv = cands.deep_view();
    let ghost limit_spec = if dv.len() <= 15 { dv.len() as int } else { 15 };
    let limit: usize = if cands.len() <= 15 {
        cands.len()
    } else {
        15
    };
    let mut best: Option<String> = None;
    let mut best_score: i32 = 0;
    let mut i: usize = 0;
    proof {
        assert(dv.take(limit_spec).skip(0) =~= dv.take(limit_spec));
    }
    while i < limit && best_score < 5
        invariant
            i <= limit,
            limit as int == limit_spec,
            limit <= cands@.len(),
            dv == cands.deep_view(),
            limit_spec == (if dv.len() <= 15 { dv.len() as int } else { 15 }),
            0 <= best_score <= 5,
            best matches Some(b) ==> best_score as int == score_spec(b@),
            best is None ==> best_score == 0,
            scan_spec(dv.take(limit_spec).skip(i as int), best.deep_view(), best_score as int)
                == pick_spec(dv),
        decreases limit - i,
    {
        let ghost rest = dv.take(limit_spec).skip(i as int);
        proof {
            assert(rest.len() > 0);
            assert(rest[0] == dv[i as int]);
            assert(rest.drop_first() =~= dv.take(limit_spec).skip(i + 1));
        }
        let sc = score_path(cands[i].as_str());
        if best.is_none() || sc > best_score {
            best = Some(cands[i].clone());
            best_score = sc;
        }
        i += 1;
    }
    proof {
        let rest = dv.take(limit_spec).skip(i as int);
        if i == limit {
            assert(rest =~= Seq::<Seq<char>>::empty());
        }
        assert(scan_spec(rest, best.deep_view(), best_score as int) == best.deep_view());
    }
    best
}

/// The theme-icon name hidden in an absolute path: the portion after the
/// last `/`, with an extension (a `.` after its first character, and what
/// follows) removed. A reference with nothing after its last `/` — one
/// ending in a slash — has no file name to extract and retries under the
/// raw reference itself.
pub open spec fn stem_spec(raw: Seq<char>) -> Seq<char> {
    let name = raw.skip(last_index_of(raw, '/') + 1);
    if name.len() == 0 {
        raw
    } else {
        let dot = last_index_of(name, '.');
        if dot > 0 {
            name.take(dot)
        } else {
            name
        }
    }
}

/// Extracts the bare theme-icon name from an absolute icon path, as
/// [`stem_spec`] describes.
pub fn icon_stem(raw: &str) -> (r: String)
    ensures
        r@ == stem_spec(raw@),
{
    let slen = raw.unicode_len();
    let sl = rfind_char(raw, '/');
    proof {
        crate::strutil::lemma_last_index_of(raw@, '/');
    }
    let start: usize = if sl == slen {
        0
    } else {
        sl + 1
    };
    proof {
        assert(start as int == last_index_of(raw@, '/') + 1);
    }
    if start == slen {
        return raw.to_owned();
    }
    let name = raw.substring_char(start, slen);
    proof {
        assert(name@ =~= raw@.skip(start as int));
    }
    let nlen = slen - start;
    let dot = rfind_char(name, '.');
    proof {
        crate::strutil::lemma_last_index_of(name@, '.');
    }
    if dot != nlen && dot > 0 {
        let stem = name.substring_char(0, dot);
        proof {
            assert(stem@ =~= name@.take(dot as int));
        }
        stem.to_owned()
    } else {
        name.to_owned()
    }
}

/// Probes the filesystem for a path. Relies on std::path::Path::exists;
/// the answer depends on the disk at the moment of the call, so nothing is
/// promised of it.
#[verifier::external_body]
fn path_exists(p: &str) -> bool {
    std::path::Path::new(p).exists()
}

/// A path the theme lookup can hand out: it names an image file, ending in
/// `.svg`, `.png` or `.xpm`.
pub open spec fn is_image_path(p: Seq<char>) -> bool {
    ends_with_seq(p, ".svg"@) || ends_with_seq(p, ".png"@) || ends_with_seq(p, ".xpm"@)
}

/// Queries the icon themes for candidate image files matching a theme-icon
/// name. Relies on linicon::lookup_icon; failing lookup entries are dropped,
/// as the resolution policy asks, and each path is converted to text. Which
/// candidates come back depends on the themes installed, so only their
/// shape is promised: the crate builds every candidate path it yields with
/// one of the file endings `.svg`, `.png`, `.xpm`.
#[verifier::external_body]
fn lookup_icon_paths(name: &str) -> (r: Vec<String>)
    ensures
        forall|i: int| 0 <= i < r.deep_view().len() ==> is_image_path(#[trigger] r.deep_view()[i]),
{
    linicon::lookup_icon(name)
        .filter_map(|entry| entry.ok())
        .map(|icon| icon.path.to_string_lossy().to_string())
        .collect()
}

/// Returns the first candidate that exists on disk, probing in order.
fn first_existing(cands: &Vec<String>) -> (r: Option<String>)
    ensures
        r matches Some(p) ==> cands.deep_view().contains(p@),
{
    let mut i: usize = 0;
    while i < cands.len()
        invariant
            i <= cands@.len(),
        decreases cands@.len() - i,
    {
        if path_exists(cands[i].as_str()) {
            let p = cands[i].clone();
            proof {
                assert(cands.deep_view()[i as int] == p@);
            }
            return Some(p);
        }
        i += 1;
    }
    None
}

/// The fixed ordered list of conventional icon-theme paths probed when the
/// theme lookup produced nothing usable: scalable SVG under the system and
/// user hicolor directories, then 512/256/128/48-pixel PNG variants, then
/// the system pixmaps.
pub open spec fn highres_spec(name: Seq<char>, home: Seq<char>) -> Seq<Seq<char>> {
    seq![
        "/usr/share/icons/hicolor/scalable/apps/"@ + name + ".svg"@,
        home + "/.local/share/icons/hicolor/scalable/apps/"@ + name + ".svg"@,
        "/usr/share/icons/hicolor/512x512/apps/"@ + name + ".png"@,
        home + "/.local/share/icons/hicolor/512x512/apps/"@ + name + ".png"@,
        "/usr/share/icons/hicolor/256x256/apps/"@ + name + ".png"@,
        home + "/.local/share/icons/hicolor/256x256/apps/"@ + name + ".png"@,
        "/usr/share/icons/hicolor/128x128/apps/"@ + name + ".png"@,
        "/usr/share/icons/hicolor/48x48/apps/"@ + name + ".png"@,
        "/usr/share/pixmaps/"@ + name + ".svg"@,
        "/usr/share/pixmaps/"@ + name + ".png"@,
    ]
}

/// Builds the high-resolution candidate paths for a theme-icon name.
pub fn build_highres_candidates(name: &str, home: &str) -> (r: Vec<String>)
    ensures
        r.deep_view() == highres_spec(name@, home@),
{
    let mut v: Vec<String> = Vec::new();
    v.push(concat3("/usr/share/icons/hicolor/scalable/apps/", name, ".svg"));
    v.push(concat4(home, "/.local/share/icons/hicolor/scalable/apps/", name, ".svg"));
    v.push(concat3("/usr/share/icons/hicolor/512x512/apps/", name, ".png"));
    v.push(concat4(home, "/.local/share/icons/hicolor/512x512/apps/", name, ".png"));
    v.push(concat3("/usr/share/icons/hicolor/256x256/apps/", name, ".png"));
    v.push(concat4(home, "/.local/share/icons/hicolor/256x256/apps/", name, ".png"));
    v.push(concat3("/usr/share/icons/hicolor/128x128/apps/", name, ".png"));
    v.push(concat3("/usr/share/icons/hicolor/48x48/apps/", name, ".png"));
    v.push(concat3("/usr/share/pixmaps/", name, ".svg"));
    v.push(concat3("/usr/share/pixmaps/", name, ".png"));
    proof {
        assert(v.deep_view() =~~= highres_spec(name@, home@));
    }
    v
}

/// The fixed list of generic fallback icons probed when everything else
/// failed: a symbolic "unavailable" glyph, a generic application icon, an
/// interpreter logo.
pub open spec fn fallback_spec() -> Seq<Seq<char>> {
    seq![
        "/usr/share/icons/Adwaita/symbolic/action/action-unavailable-symbolic.svg"@,
        "/usr/share/icons/hicolor/48x48/apps/application-default-icon.png"@,
        "/usr/share/pixmaps/python.png"@,
    ]
}

fn build_fallback_candidates() -> (r: Vec<String>)
    ensures
        r.deep_view() == fallback_spec(),
{
    let mut v: Vec<String> = Vec::new();
    v.push("/usr/share/icons/Adwaita/symbolic/action/action-unavailable-symbolic.svg".to_owned());
    v.push("/usr/share/icons/hicolor/48x48/apps/application-default-icon.png".to_owned());
    v.push("/usr/share/pixmaps/python.png".to_owned());
    proof {
        assert(v.deep_view() =~~= fallback_spec());
    }
    v
}

/// Probes the universal fallback icons in order and returns the first that
/// exists on disk, or an empty string when none does.
pub fn get_fallback_icon() -> (r: String)
    ensures
        r@.len() == 0 || fallback_spec().contains(r@),
{
    let cands = build_fallback_candidates();
    match first_existing(&cands) {
        Some(p) => p,
        None => String::new(),
    }
}

/// Settles a theme-icon name against a list of lookup candidates: the
/// best-scoring candidate when the scan yields one, otherwise the first
/// existing high-resolution candidate, otherwise the universal fallback.
pub fn resolve_from_candidates(name: &str, home: &str, candidates: &Vec<String>) -> (r: String)
    ensures
        pick_spec(candidates.deep_view()) matches Some(p) ==> r@ == p,
        pick_spec(candidates.deep_view()) is None ==> (r@.len() == 0 || highres_spec(
            name@,
            home@,
        ).contains(r@) || fallback_spec().contains(r@)),
{
    match pick_lookup_candidate(candidates) {
        Some(p) => p,
        None => {
            let hr = build_highres_candidates(name, home);
            match first_existing(&hr) {
                Some(p) => p,
                None => get_fallback_icon(),
            }
        },
    }
}

/// What resolving a bare theme-icon name can return: nothing, an image
/// file the theme lookup offered, one of the constructed high-resolution
/// candidates for the name, or a universal fallback icon.
pub open spec fn name_resolution_shape(name: Seq<char>, home: Seq<char>, r: Seq<char>) -> bool {
    ||| r.len() == 0
    ||| is_image_path(r)
    ||| highres_spec(name, home).contains(r)
    ||| fallback_spec().contains(r)
}

/// What resolving a raw icon reference can return, tier by tier: an empty
/// reference goes straight to the fallback chain; an absolute path comes
/// back verbatim or is retried once as the bare name [`stem_spec`] extracts;
/// a bare name resolves as [`name_resolution_shape`] says.
pub open spec fn resolved_icon_shape(raw: Seq<char>, home: Seq<char>, r: Seq<char>) -> bool {
    if raw.len() == 0 {
        r.len() == 0 || fallback_spec().contains(r)
    } else if raw[0] == '/' {
        r == raw || name_resolution_shape(stem_spec(raw), home, r)
    } else {
        name_resolution_shape(raw, home, r)
    }
}

/// Resolves a bare theme-icon name: theme lookup scored by desirability,
/// then constructed high-resolution candidates, then the fallback chain.
/// The lookup answer comes from the installed themes, so the settling of
/// that answer, [`resolve_from_candidates`], carries the exact contract;
/// here only the shape of the outcome can be promised.
fn resolve_icon_name(name: &str, home: &str) -> (r: String)
    ensures
        name_resolution_shape(name@, home@, r@),
{
    let cands = lookup_icon_paths(name);
    let r = resolve_from_candidates(name, home, &cands);
    proof {
        lemma_pick_member(cands.deep_view());
        match pick_spec(cands.deep_view()) {
            Some(p) => {
                let j = choose|j: int|
                    0 <= j < cands.deep_view().len() && cands.deep_view()[j] == p;
                assert(is_image_path(cands.deep_view()[j]));
            },
            None => {},
        }
    }
    r
}

/// Resolves a raw icon reference — empty, an absolute path, or a bare
/// theme-icon name — to a concrete image path, or an empty string when
/// nothing usable exists anywhere. An absolute path that exists is used
/// verbatim; one that does not is retried once as a bare theme-icon name.
/// What came back is tied to the tiers by [`resolved_icon_shape`].
pub fn resolve_icon(raw: &str, home: &str) -> (r: String)
    ensures
        resolved_icon_shape(raw@, home@, r@),
{
    if raw.is_empty() {
        return get_fallback_icon();
    }
    if raw.get_char(0) == '/' {
        if path_exists(raw) {
            return raw.to_owned();
        }
        let stem = icon_stem(raw);
        return resolve_icon_name(stem.as_str(), home);
    }
    resolve_icon_name(raw, home)
}

} // verus!
