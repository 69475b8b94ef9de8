//! Software releases: version texts and the staleness policy.

use vstd::prelude::*;
use crate::allocation::AllocationBackend;
use crate::identity::{Identity, contains_identity, listed, parse_identity, pubkey_decoding};

verus! {

/// Whether `semver::Version::parse` accepts the text.
pub uninterp spec fn release_parses(text: Seq<char>) -> bool;

/// Whether `semver::Version`'s order puts the version parsed from `older`
/// before the one parsed from `newer`.
pub uninterp spec fn release_precedes(older: Seq<char>, newer: Seq<char>) -> bool;

/// Relies on `semver::Version::parse`: whether the text is a semantic version.
#[verifier::external_body]
fn parses_as_release(text: &str) -> (r: bool)
    ensures
        r == release_parses(text@),
{
    semver::Version::parse(text).is_ok()
}

/// Relies on `semver::Version`'s `PartialOrd`: precedence of two parsed versions.
#[verifier::external_body]
fn precedes_release(older: &str, newer: &str) -> (r: bool)
    requires
        release_parses(older@),
        release_parses(newer@),
    ensures
        r == release_precedes(older@, newer@),
{
    match (semver::Version::parse(older), semver::Version::parse(newer)) {
        (Ok(a), Ok(b)) => a < b,
        _ => false,
    }
}

pub open spec fn has_v_prefix(text: Seq<char>) -> bool {
    text.len() > 0 && text[0] == 'v'
}

/// The version part of a release text: without its leading `v`, if any.
pub open spec fn version_part(text: Seq<char>) -> Seq<char> {
    if has_v_prefix(text) {
        text.drop_first()
    } else {
        text
    }
}

/// A release text is a semantic version, optionally written with a leading `v`.
pub fn is_release_version(text: &str) -> (r: bool)
    ensures
        r == ((has_v_prefix(text@) && release_parses(text@.drop_first())) || release_parses(
            text@,
        )),
{
    let n = text.unicode_len();
    if n > 0 && text.get_char(0) == 'v' {
        let rest = text.substring_char(1, n);
        assert(rest@ =~= text@.drop_first());
        if parses_as_release(rest) {
            return true;
        }
    }
    parses_as_release(text)
}

/// The text of the release version, without a leading `v`.
pub fn release_version_text(text: &str) -> (r: &str)
    ensures
        r@ == version_part(text@),
{
    let n = text.unicode_len();
    if n > 0 && text.get_char(0) == 'v' {
        let rest = text.substring_char(1, n);
        assert(rest@ =~= text@.drop_first());
        rest
    } else {
        text
    }
}

/// A node of the cluster as gossip lists it: its key text and the software
/// version it advertises.
#[derive(Clone, Debug)]
pub struct ClusterNode {
    pub identity: String,
    pub version: Option<String>,
}

/// Node `node` is enrolled validator `id` and runs a release older than `min`.
pub open spec fn runs_old_release(
    node: ClusterNode,
    min: Seq<char>,
    backend: AllocationBackend,
    id: Seq<u8>,
) -> bool {
    &&& pubkey_decoding(node.identity@) == Some(id)
    &&& backend.enrolled(id)
    &&& node.version is Some
    &&& release_parses(node.version->Some_0@)
    &&& release_precedes(node.version->Some_0@, min)
}

/// Enrolled validators that run a release older than `min_release`, each once.
pub fn nodes_with_old_release(
    nodes: &Vec<ClusterNode>,
    min_release: &str,
    backend: &AllocationBackend,
) -> (r: Vec<Identity>)
    requires
        release_parses(min_release@),
    ensures
        forall|a: int, b: int|
            #![trigger r@[a], r@[b]]
            0 <= a < r@.len() && 0 <= b < r@.len() && a != b ==> r@[a]@ != r@[b]@,
        forall|id: Seq<u8>|
            listed(r@, id) <==> exists|k: int|
                0 <= k < nodes@.len() && runs_old_release(
                    #[trigger] nodes@[k],
                    min_release@,
                    *backend,
                    id,
                ),
{
    let mut old: Vec<Identity> = Vec::new();
    let mut k: usize = 0;
    while k < nodes.len()
        invariant
            0 <= k <= nodes@.len(),
            release_parses(min_release@),
            forall|a: int, b: int|
                #![trigger old@[a], old@[b]]
                0 <= a < old@.len() && 0 <= b < old@.len() && a != b ==> old@[a]@ != old@[b]@,
            forall|id: Seq<u8>|
                listed(old@, id) <==> exists|j: int|
                    0 <= j < k && runs_old_release(#[trigger] nodes@[j], min_release@, *backend, id),
        decreases nodes@.len() - k,
    {
        let node = &nodes[k];
        let ghost o0 = old@;
        let mut found: Option<Identity> = None;
        if let Some(id) = parse_identity(node.identity.as_str()) {
            if backend.is_enrolled(&id) {
                if let Some(version) = &node.version {
                    if parses_as_release(version.as_str()) && precedes_release(
                        version.as_str(),
                        min_release,
                    ) {
                        found = Some(id);
                    }
                }
            }
        }
        proof {
            assert forall|x: Seq<u8>|
                runs_old_release(nodes@[k as int], min_release@, *backend, x) <==> (found is Some
                    && found->Some_0@ == x) by {}
        }
        if let Some(id) = found {
            if !contains_identity(&old, &id) {
                old.push(id);
            }
        }
        proof {
            assert forall|id: Seq<u8>|
                listed(old@, id) <==> exists|j: int|
                    0 <= j < k + 1 && runs_old_release(
                        #[trigger] nodes@[j],
                        min_release@,
                        *backend,
                        id,
                    ) by {
                if listed(old@, id) {
                    let a = choose|a: int| 0 <= a < old@.len() && #[trigger] old@[a]@ == id;
                    if a < o0.len() {
                        assert(o0[a] == old@[a]);
                        assert(listed(o0, id));
                    }
                }
                if exists|j: int|
                    0 <= j < k + 1 && runs_old_release(
                        #[trigger] nodes@[j],
                        min_release@,
                        *backend,
                        id,
                    ) {
                    let j = choose|j: int|
                        0 <= j < k + 1 && runs_old_release(
                            #[trigger] nodes@[j],
                            min_release@,
                            *backend,
                            id,
                        );
                    if j < k {
                        assert(listed(o0, id));
                        let a = choose|a: int| 0 <= a < o0.len() && #[trigger] o0[a]@ == id;
                        assert(old@[a] == o0[a]);
                    } else if listed(o0, id) {
                        let a = choose|a: int| 0 <= a < o0.len() && #[trigger] o0[a]@ == id;
                        assert(old@[a] == o0[a]);
                    } else {
                        assert(old@[o0.len() as int]@ == id);
                    }
                }
            }
        }
        k = k + 1;
    }
    old
}

/// Enrolled validators that run a release older than `min_release`, or `None`
/// when `min_release` is not a semantic version.
pub fn old_release_validators(
    nodes: &Vec<ClusterNode>,
    min_release: &str,
    backend: &AllocationBackend,
) -> (r: Option<Vec<Identity>>)
    ensures
        r is None <==> !release_parses(min_release@),
        r matches Some(old) ==> forall|id: Seq<u8>|
            listed(old@, id) <==> exists|k: int|
                0 <= k < nodes@.len() && runs_old_release(
                    #[trigger] nodes@[k],
                    min_release@,
                    *backend,
                    id,
                ),
{
    if parses_as_release(min_release) {
        Some(nodes_with_old_release(nodes, min_release, backend))
    } else {
        None
    }
}

/// More validators run an old release than `max_percentage` percent of the
/// classified validators (integer arithmetic).
pub fn too_many_old_releases(n_old: usize, n_classified: usize, max_percentage: usize) -> (r: bool)
    ensures
        r == (n_old as int > n_classified as int * max_percentage as int / 100),
{
    let a = n_classified as u128;
    let b = max_percentage as u128;
    proof {
        assert(a * b <= 0xffff_ffff_ffff_ffffu128 * 0xffff_ffff_ffff_ffffu128) by (nonlinear_arith)
            requires
                a <= 0xffff_ffff_ffff_ffffu128,
                b <= 0xffff_ffff_ffff_ffffu128,
        ;
    }
    let limit = a * b / 100;
    n_old as u128 > limit
}

} // verus!
