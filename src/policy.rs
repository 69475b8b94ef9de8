//! The infrastructure-concentration policy.

use vstd::prelude::*;
use crate::identity::{Identity, contains_identity, identity_text, listed, parse_identity, pubkey_decoding, pubkey_text};
use crate::config::Config;
use crate::text::{append_decimal, decimal};

verus! {

/// What `serde_yaml::from_str::<Vec<String>>` reads from a YAML text: a list of
/// strings, or nothing when the text holds no such list.
pub uninterp spec fn yaml_string_list(text: Seq<char>) -> Option<Seq<Seq<char>>>;

/// How a validator whose infrastructure concentration is above the ceiling is
/// treated.
#[derive(Clone, Debug)]
pub enum InfrastructureConcentrationAffects {
    /// Stake unaffected; a warning is notified.
    WarnAll,
    /// Validators in the list lose their stake; the others are warned.
    DestakeListed(Vec<Identity>),
    /// Every such validator loses its stake.
    DestakeAll,
}

/// The verdict of the infrastructure-concentration policy on one validator.
#[derive(Clone, Debug)]
pub enum InfrastructureConcentrationAffectKind {
    Destake(String),
    Warn(String),
}

/// `concentration` is in tenths of a percent, written with one decimal.
pub open spec fn concentration_text(concentration: nat) -> Seq<char> {
    decimal(concentration / 10) + "."@ + decimal(concentration % 10)
}

pub open spec fn destake_memo_text(id: Seq<u8>, concentration: nat, max: nat) -> Seq<char> {
    "🏟️ `"@ + pubkey_text(id) + "` infrastructure concentration "@ + concentration_text(
        concentration,
    ) + "% is too high. Max concentration is "@ + decimal(max) + "%. Removed stake"@
}

pub open spec fn warning_memo_text(id: Seq<u8>, concentration: nat, max: nat) -> Seq<char> {
    "🗺  `"@ + pubkey_text(id) + "` infrastructure concentration "@ + concentration_text(
        concentration,
    ) + "% is too high. Max concentration is "@ + decimal(max)
        + "%. No stake removed. Consider finding a new data center"@
}

/// Whether the policy removes the stake of validator `id`.
pub open spec fn destakes(affects: InfrastructureConcentrationAffects, id: Seq<u8>) -> bool {
    match affects {
        InfrastructureConcentrationAffects::WarnAll => false,
        InfrastructureConcentrationAffects::DestakeAll => true,
        InfrastructureConcentrationAffects::DestakeListed(list) => listed(list@, id),
    }
}

/// `c` equals the lower-case ASCII letter or symbol `lower`, ignoring ASCII case.
pub open spec fn same_ignoring_ascii_case(c: char, lower: char) -> bool {
    c == lower || ('a' <= lower && lower <= 'z' && c as u32 + 32 == lower as u32)
}

pub open spec fn matches_keyword(s: Seq<char>, keyword: Seq<char>) -> bool {
    s.len() == keyword.len() && forall|i: int|
        0 <= i < s.len() ==> same_ignoring_ascii_case(#[trigger] s[i], keyword[i])
}

fn matches_keyword_exec(s: &str, keyword: &str) -> (r: bool)
    ensures
        r == matches_keyword(s@, keyword@),
{
    let n = keyword.unicode_len();
    if s.unicode_len() != n {
        return false;
    }
    let mut i: usize = 0;
    while i < n
        invariant
            n == keyword@.len(),
            n == s@.len(),
            0 <= i <= n,
            forall|j: int| 0 <= j < i ==> same_ignoring_ascii_case(#[trigger] s@[j], keyword@[j]),
        decreases n - i,
    {
        let c = s.get_char(i);
        let k = keyword.get_char(i);
        let same = c == k || ('a' <= k && k <= 'z' && c as u32 + 32 == k as u32);
        if !same {
            return false;
        }
        i = i + 1;
    }
    true
}

/// Relies on `serde_yaml::from_str::<Vec<String>>`: reads a YAML list of strings.
#[verifier::external_body]
fn read_yaml_string_list(text: &str) -> (r: Option<Vec<String>>)
    ensures
        match r {
            Some(v) => yaml_string_list(text@) == Some(v@.map_values(|s: String| s@)),
            None => yaml_string_list(text@) is None,
        },
{
    serde_yaml::from_str::<Vec<String>>(text).ok()
}

impl InfrastructureConcentrationAffects {
    pub fn destake_memo(validator_id: &Identity, concentration: u64, max_concentration: u64) -> (r:
        String)
        ensures
            r@ == destake_memo_text(validator_id@, concentration as nat, max_concentration as nat),
    {
        let mut m = String::from_str("🏟️ `");
        let id = identity_text(validator_id);
        m.append(id.as_str());
        m.append("` infrastructure concentration ");
        append_decimal(&mut m, concentration / 10);
        m.append(".");
        append_decimal(&mut m, concentration % 10);
        m.append("% is too high. Max concentration is ");
        append_decimal(&mut m, max_concentration);
        m.append("%. Removed stake");
        m
    }

    pub fn warning_memo(validator_id: &Identity, concentration: u64, max_concentration: u64) -> (r:
        String)
        ensures
            r@ == warning_memo_text(validator_id@, concentration as nat, max_concentration as nat),
    {
        let mut m = String::from_str("🗺  `");
        let id = identity_text(validator_id);
        m.append(id.as_str());
        m.append("` infrastructure concentration ");
        append_decimal(&mut m, concentration / 10);
        m.append(".");
        append_decimal(&mut m, concentration % 10);
        m.append("% is too high. Max concentration is ");
        append_decimal(&mut m, max_concentration);
        m.append("%. No stake removed. Consider finding a new data center");
        m
    }

    /// The verdict on a validator above the concentration ceiling, with its
    /// memo. `concentration` is in tenths of a percent.
    pub fn memo(&self, validator_id: &Identity, concentration: u64, config: &Config) -> (r:
        InfrastructureConcentrationAffectKind)
        ensures
            match r {
                InfrastructureConcentrationAffectKind::Destake(m) => destakes(*self, validator_id@)
                    && m@ == destake_memo_text(
                    validator_id@,
                    concentration as nat,
                    config.max_infrastructure_concentration as nat,
                ),
                InfrastructureConcentrationAffectKind::Warn(m) => !destakes(*self, validator_id@)
                    && m@ == warning_memo_text(
                    validator_id@,
                    concentration as nat,
                    config.max_infrastructure_concentration as nat,
                ),
            },
    {
        let max_concentration = config.max_infrastructure_concentration;
        let destake = match self {
            InfrastructureConcentrationAffects::DestakeAll => true,
            InfrastructureConcentrationAffects::WarnAll => false,
            InfrastructureConcentrationAffects::DestakeListed(list) => contains_identity(
                list,
                validator_id,
            ),
        };
        if destake {
            InfrastructureConcentrationAffectKind::Destake(
                Self::destake_memo(validator_id, concentration, max_concentration),
            )
        } else {
            InfrastructureConcentrationAffectKind::Warn(
                Self::warning_memo(validator_id, concentration, max_concentration),
            )
        }
    }

    /// Reads the policy keywords "warn" and "destake", in any ASCII case.
    pub fn from_keyword(s: &str) -> (r: Option<InfrastructureConcentrationAffects>)
        ensures
            r matches Some(InfrastructureConcentrationAffects::WarnAll) <==> matches_keyword(
                s@,
                "warn"@,
            ),
            r matches Some(InfrastructureConcentrationAffects::DestakeAll) <==> !matches_keyword(
                s@,
                "warn"@,
            ) && matches_keyword(s@, "destake"@),
            r is None <==> !matches_keyword(s@, "warn"@) && !matches_keyword(s@, "destake"@),
    {
        if matches_keyword_exec(s, "warn") {
            Some(InfrastructureConcentrationAffects::WarnAll)
        } else if matches_keyword_exec(s, "destake") {
            Some(InfrastructureConcentrationAffects::DestakeAll)
        } else {
            None
        }
    }

    /// A destake list from the text of a YAML list of validator keys; entries
    /// that are not well-formed keys are skipped. `None` when the text is not
    /// such a list.
    pub fn from_yaml_list(text: &str) -> (r: Option<InfrastructureConcentrationAffects>)
        ensures
            r is None <==> yaml_string_list(text@) is None,
            match r {
                Some(InfrastructureConcentrationAffects::DestakeListed(list)) => forall|id: Seq<u8>|
                    listed(list@, id) <==> exists|k: int|
                        0 <= k < yaml_string_list(text@)->Some_0.len() && pubkey_decoding(
                            #[trigger] yaml_string_list(text@)->Some_0[k],
                        ) == Some(id),
                Some(_) => false,
                None => true,
            },
    {
        let entries = match read_yaml_string_list(text) {
            Some(v) => v,
            None => {
                return None;
            },
        };
        let ghost texts = yaml_string_list(text@)->Some_0;
        let mut list: Vec<Identity> = Vec::new();
        let mut k: usize = 0;
        while k < entries.len()
            invariant
                0 <= k <= entries@.len(),
                texts == entries@.map_values(|s: String| s@),
                forall|id: Seq<u8>|
                    listed(list@, id) <==> exists|j: int|
                        0 <= j < k && pubkey_decoding(#[trigger] texts[j]) == Some(id),
            decreases entries@.len() - k,
        {
            let ghost l0 = list@;
            assert(texts[k as int] == entries@[k as int]@);
            match parse_identity(entries[k].as_str()) {
                Some(id) => {
                    list.push(id);
                    proof {
                        assert forall|x: Seq<u8>|
                            listed(list@, x) <==> exists|j: int|
                                0 <= j < k + 1 && pubkey_decoding(#[trigger] texts[j]) == Some(
                                    x,
                                ) by {
                            if listed(list@, x) {
                                let a = choose|a: int| 0 <= a < list@.len() && #[trigger] list@[a]@ == x;
                                if a < l0.len() {
                                    assert(l0[a] == list@[a]);
                                    assert(listed(l0, x));
                                }
                            }
                            if exists|j: int|
                                0 <= j < k + 1 && pubkey_decoding(#[trigger] texts[j]) == Some(x) {
                                let j = choose|j: int|
                                    0 <= j < k + 1 && pubkey_decoding(#[trigger] texts[j]) == Some(
                                        x,
                                    );
                                if j < k {
                                    assert(listed(l0, x));
                                    let a = choose|a: int| 0 <= a < l0.len() && #[trigger] l0[a]@ == x;
                                    assert(list@[a] == l0[a]);
                                } else {
                                    assert(list@[l0.len() as int] == id);
                                }
                            }
                        }
                    }
                },
                None => {
                    proof {
                        assert forall|x: Seq<u8>|
                            listed(list@, x) <==> exists|j: int|
                                0 <= j < k + 1 && pubkey_decoding(#[trigger] texts[j]) == Some(
                                    x,
                                ) by {
                            if exists|j: int|
                                0 <= j < k + 1 && pubkey_decoding(#[trigger] texts[j]) == Some(x) {
                                let j = choose|j: int|
                                    0 <= j < k + 1 && pubkey_decoding(#[trigger] texts[j]) == Some(
                                        x,
                                    );
                                assert(j < k);
                            }
                        }
                    }
                },
            }
            k = k + 1;
        }
        Some(InfrastructureConcentrationAffects::DestakeListed(list))
    }
}

} // verus!
