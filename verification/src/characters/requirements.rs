//! Which character packs a server needs, and for what: the MJAI bot, the
//! built-in bot, the MCP agent and one pack per MCP provider.

use vstd::prelude::*;

use crate::characters::assets::{
    is_provider, is_safe_id, spec_provider, spec_safe_id, CharacterRegistryError, CharacterUsage,
};
use crate::text::{
    chars_less, chars_of, lemma_less_irreflexive, lemma_less_total,
    lemma_less_transitive, seq_less, str_eq,
};

verus! {

/// The text held by a sequence of string pairs.
pub open spec fn pair_views(s: Seq<(String, String)>) -> Seq<(Seq<char>, Seq<char>)> {
    s.map_values(|e: (String, String)| (e.0@, e.1@))
}

/// The value of the last pair whose key is `k`: what a map collected from
/// the pairs, in order, holds for `k`.
pub open spec fn last_value(s: Seq<(Seq<char>, Seq<char>)>, k: Seq<char>) -> Option<Seq<char>>
    decreases s.len(),
{
    if s.len() == 0 {
        None
    } else if s.last().0 == k {
        Some(s.last().1)
    } else {
        last_value(s.drop_last(), k)
    }
}

/// The keys of `s` strictly increase.
pub open spec fn keys_sorted(s: Seq<(Seq<char>, Seq<char>)>) -> bool {
    forall|i: int, j: int| 0 <= i < j < s.len() ==> seq_less(#[trigger] s[i].0, #[trigger] s[j].0)
}

pub proof fn lemma_last_value_found(s: Seq<(Seq<char>, Seq<char>)>, j: int)
    requires
        keys_sorted(s),
        0 <= j < s.len(),
    ensures
        last_value(s, s[j].0) == Some(s[j].1),
    decreases s.len(),
{
    if j < s.len() - 1 {
        let t = s.drop_last();
        assert(seq_less(s[j].0, s[s.len() - 1].0));
        lemma_less_irreflexive(s[j].0);
        assert(s.last().0 != s[j].0);
        assert(keys_sorted(t)) by {
            assert forall|a: int, b: int| 0 <= a < b < t.len() implies seq_less(
                #[trigger] t[a].0,
                #[trigger] t[b].0,
            ) by {
                assert(t[a] == s[a] && t[b] == s[b]);
            }
        }
        lemma_last_value_found(t, j);
        assert(t[j] == s[j]);
    }
}

pub proof fn lemma_last_value_absent(s: Seq<(Seq<char>, Seq<char>)>, k: Seq<char>)
    requires
        forall|i: int| 0 <= i < s.len() ==> (#[trigger] s[i]).0 != k,
    ensures
        last_value(s, k) is None,
    decreases s.len(),
{
    if s.len() > 0 {
        let t = s.drop_last();
        assert(s[s.len() - 1].0 != k);
        assert forall|i: int| 0 <= i < t.len() implies (#[trigger] t[i]).0 != k by {
            assert(t[i] == s[i]);
        }
        lemma_last_value_absent(t, k);
    }
}

proof fn lemma_insert_sorted(
    s: Seq<(Seq<char>, Seq<char>)>,
    i: int,
    key: Seq<char>,
    value: Seq<char>,
)
    requires
        keys_sorted(s),
        0 <= i <= s.len(),
        forall|a: int| 0 <= a < i ==> seq_less(#[trigger] s[a].0, key),
        i == s.len() || seq_less(key, s[i].0),
    ensures
        keys_sorted(s.insert(i, (key, value))),
        forall|k: Seq<char>|
            #![trigger last_value(s.insert(i, (key, value)), k)]
            last_value(s.insert(i, (key, value)), k) == if k == key {
                Some(value)
            } else {
                last_value(s, k)
            },
{
    let t = s.insert(i, (key, value));
    assert forall|a: int, b: int| 0 <= a < b < t.len() implies seq_less(
        #[trigger] t[a].0,
        #[trigger] t[b].0,
    ) by {
        if b < i {
            assert(t[a] == s[a] && t[b] == s[b]);
        } else if b == i {
            assert(t[a] == s[a]);
        } else if a == i {
            assert(t[b] == s[b - 1]);
            if b - 1 > i {
                lemma_less_transitive(key, s[i].0, s[b - 1].0);
            }
        } else if a < i {
            assert(t[a] == s[a] && t[b] == s[b - 1]);
            lemma_less_transitive(s[a].0, key, s[i].0);
            if b - 1 > i {
                lemma_less_transitive(s[a].0, s[i].0, s[b - 1].0);
            }
        } else {
            assert(t[a] == s[a - 1] && t[b] == s[b - 1]);
        }
    }
    assert forall|k: Seq<char>| #[trigger] last_value(t, k) == if k == key {
        Some(value)
    } else {
        last_value(s, k)
    } by {
        assert(t[i] == (key, value));
        if k == key {
            lemma_last_value_found(t, i);
        } else if exists|j: int| 0 <= j < s.len() && (#[trigger] s[j]).0 == k {
            let j = choose|j: int| 0 <= j < s.len() && (#[trigger] s[j]).0 == k;
            lemma_last_value_found(s, j);
            if j < i {
                assert(t[j] == s[j]);
                lemma_last_value_found(t, j);
            } else {
                assert(t[j + 1] == s[j]);
                lemma_last_value_found(t, j + 1);
            }
        } else {
            lemma_last_value_absent(s, k);
            assert forall|m: int| 0 <= m < t.len() implies (#[trigger] t[m]).0 != k by {
                if m < i {
                    assert(t[m] == s[m]);
                } else if m > i {
                    assert(t[m] == s[m - 1]);
                }
            }
            lemma_last_value_absent(t, k);
        }
    }
}

proof fn lemma_update_sorted(
    s: Seq<(Seq<char>, Seq<char>)>,
    i: int,
    key: Seq<char>,
    value: Seq<char>,
)
    requires
        keys_sorted(s),
        0 <= i < s.len(),
        s[i].0 == key,
    ensures
        keys_sorted(s.update(i, (key, value))),
        forall|k: Seq<char>|
            #![trigger last_value(s.update(i, (key, value)), k)]
            last_value(s.update(i, (key, value)), k) == if k == key {
                Some(value)
            } else {
                last_value(s, k)
            },
{
    let t = s.update(i, (key, value));
    assert forall|a: int, b: int| 0 <= a < b < t.len() implies seq_less(
        #[trigger] t[a].0,
        #[trigger] t[b].0,
    ) by {
        assert(t[a].0 == s[a].0 && t[b].0 == s[b].0);
    }
    assert forall|k: Seq<char>| #[trigger] last_value(t, k) == if k == key {
        Some(value)
    } else {
        last_value(s, k)
    } by {
        if k == key {
            lemma_last_value_found(t, i);
        } else if exists|j: int| 0 <= j < s.len() && (#[trigger] s[j]).0 == k {
            let j = choose|j: int| 0 <= j < s.len() && (#[trigger] s[j]).0 == k;
            lemma_last_value_found(s, j);
            assert(t[j] == s[j]);
            lemma_last_value_found(t, j);
        } else {
            lemma_last_value_absent(s, k);
            assert forall|m: int| 0 <= m < t.len() implies (#[trigger] t[m]).0 != k by {
                if m != i {
                    assert(t[m] == s[m]);
                }
            }
            lemma_last_value_absent(t, k);
        }
    }
}

/// Puts `value` under `key` in a map kept as pairs sorted by key.
fn insert_provider(providers: &mut Vec<(String, String)>, key: String, value: String)
    requires
        keys_sorted(pair_views(old(providers)@)),
    ensures
        keys_sorted(pair_views(final(providers)@)),
        forall|k: Seq<char>|
            #![trigger last_value(pair_views(final(providers)@), k)]
            last_value(pair_views(final(providers)@), k) == if k == key@ {
                Some(value@)
            } else {
                last_value(pair_views(old(providers)@), k)
            },
{
    let ghost s = pair_views(providers@);
    let key_chars = chars_of(key.as_str());
    let mut i: usize = 0;
    while i < providers.len()
        invariant
            i <= providers.len(),
            s == pair_views(providers@),
            key_chars@ == key@,
            forall|a: int| 0 <= a < i ==> seq_less(#[trigger] s[a].0, key@),
        ensures
            i <= providers.len(),
            forall|a: int| 0 <= a < i ==> seq_less(#[trigger] s[a].0, key@),
            i < providers.len() ==> !seq_less(s[i as int].0, key@),
        decreases providers.len() - i,
    {
        let current = chars_of(providers[i].0.as_str());
        assert(s[i as int].0 == providers@[i as int].0@);
        if !chars_less(current.as_slice(), key_chars.as_slice()) {
            break;
        }
        i += 1;
    }
    proof {
        if i < providers.len() {
            assert(s[i as int].0 == providers@[i as int].0@);
        }
    }
    if i < providers.len() && str_eq(providers[i].0.as_str(), key.as_str()) {
        proof {
            lemma_update_sorted(s, i as int, key@, value@);
        }
        providers.set(i, (key, value));
        proof {
            assert(pair_views(providers@) =~= s.update(i as int, (key@, value@)));
        }
    } else {
        proof {
            if i < s.len() {
                lemma_less_total(key@, s[i as int].0);
            }
            lemma_insert_sorted(s, i as int, key@, value@);
        }
        providers.insert(i, (key, value));
        proof {
            assert(pair_views(providers@) =~= s.insert(i as int, (key@, value@)));
        }
    }
}

/// The packs a server requires: one for the MJAI bot, one for the built-in
/// bot, one for the MCP agent, and one for each MCP provider, kept sorted
/// by provider.
#[derive(Debug, Clone)]
pub struct CharacterRequirements {
    pub mjai: String,
    pub builtin: String,
    pub mcp: String,
    pub mcp_providers: Vec<(String, String)>,
}

/// Whether the ids and provider names of a requirement set are well formed.
pub open spec fn requirements_valid(
    mjai: Seq<char>,
    builtin: Seq<char>,
    mcp: Seq<char>,
    providers: Seq<(Seq<char>, Seq<char>)>,
) -> bool {
    &&& spec_safe_id(mjai)
    &&& spec_safe_id(builtin)
    &&& spec_safe_id(mcp)
    &&& forall|i: int|
        0 <= i < providers.len() ==> spec_provider((#[trigger] providers[i]).0) && spec_safe_id(
            providers[i].1,
        )
}

/// Whether every provider of `input` names a safe id, taking for each
/// provider the pack its last pair names.
pub open spec fn providers_valid(input: Seq<(Seq<char>, Seq<char>)>) -> bool {
    forall|i: int|
        0 <= i < input.len() ==> spec_provider((#[trigger] input[i]).0) && spec_safe_id(
            last_value(input, input[i].0)->0,
        )
}

/// Whether `p` is the provider list that a requirement set keeps for the
/// configured list `input`: sorted by provider, each once, with the last
/// value given for it.
pub open spec fn normalized_providers(input: Seq<(Seq<char>, Seq<char>)>, p: Seq<(Seq<char>, Seq<char>)>) -> bool {
    &&& keys_sorted(p)
    &&& forall|k: Seq<char>| #![trigger last_value(p, k)] last_value(p, k) == last_value(input, k)
}

/// The kept list of a valid configured list is valid entry by entry.
pub proof fn lemma_normalized_valid(input: Seq<(Seq<char>, Seq<char>)>, p: Seq<(Seq<char>, Seq<char>)>)
    requires
        providers_valid(input),
        normalized_providers(input, p),
    ensures
        forall|i: int|
            0 <= i < p.len() ==> spec_provider((#[trigger] p[i]).0) && spec_safe_id(p[i].1),
{
    assert forall|i: int| 0 <= i < p.len() implies spec_provider((#[trigger] p[i]).0) && spec_safe_id(
        p[i].1,
    ) by {
        lemma_last_value_found(p, i);
        assert(last_value(p, p[i].0) == last_value(input, p[i].0));
        lemma_last_value_in(input, p[i].0);
        let j = choose|j: int| 0 <= j < input.len() && #[trigger] input[j] == (p[i].0, p[i].1);
        assert(input[j] == (p[i].0, p[i].1));
    }
}

/// The packs a requirement set expects, with the usage each must have: the
/// MJAI, built-in and MCP packs, then the providers' packs in provider order.
pub open spec fn spec_expected(
    mjai: Seq<char>,
    builtin: Seq<char>,
    mcp: Seq<char>,
    providers: Seq<(Seq<char>, Seq<char>)>,
) -> Seq<(Seq<char>, CharacterUsage)> {
    seq![(mjai, CharacterUsage::Mjai), (builtin, CharacterUsage::Builtin), (mcp, CharacterUsage::Mcp)]
        + provider_packs(providers)
}

/// The packs that the providers name, each to be used by MCP.
pub open spec fn provider_packs(providers: Seq<(Seq<char>, Seq<char>)>) -> Seq<(Seq<char>, CharacterUsage)> {
    providers.map_values(|p: (Seq<char>, Seq<char>)| (p.1, CharacterUsage::Mcp))
}

/// The text of a list of expected packs.
pub open spec fn expected_views(s: Seq<(String, CharacterUsage)>) -> Seq<(Seq<char>, CharacterUsage)> {
    s.map_values(|e: (String, CharacterUsage)| (e.0@, e.1))
}

pub proof fn lemma_last_value_in(s: Seq<(Seq<char>, Seq<char>)>, k: Seq<char>)
    ensures
        last_value(s, k) matches Some(v) ==> exists|j: int| 0 <= j < s.len() && #[trigger] s[j] == (k, v),
    decreases s.len(),
{
    if s.len() > 0 && s.last().0 != k {
        let t = s.drop_last();
        lemma_last_value_in(t, k);
        if last_value(t, k) is Some {
            let j = choose|j: int| 0 <= j < t.len() && #[trigger] t[j] == (k, last_value(t, k)->0);
            assert(s[j] == t[j]);
        }
    } else if s.len() > 0 {
        assert(s[s.len() - 1] == (k, s.last().1));
    }
}

impl CharacterRequirements {
    /// The requirement set of the given packs. Providers are collected into
    /// a map, a later pair for a provider replacing an earlier one.
    pub fn new(mjai: &str, builtin: &str, mcp: &str, mcp_providers: Vec<(String, String)>) -> (res:
        Result<CharacterRequirements, CharacterRegistryError>)
        ensures
            (spec_safe_id(mjai@) && spec_safe_id(builtin@) && spec_safe_id(mcp@) && providers_valid(
                pair_views(mcp_providers@),
            )) <==> res is Ok,
            res is Err ==> res == Err::<CharacterRequirements, CharacterRegistryError>(
                CharacterRegistryError::InvalidRequirement,
            ),
            res matches Ok(r) ==> {
                &&& r.mjai@ == mjai@
                &&& r.builtin@ == builtin@
                &&& r.mcp@ == mcp@
                &&& keys_sorted(pair_views(r.mcp_providers@))
                &&& forall|k: Seq<char>|
                    #![trigger last_value(pair_views(r.mcp_providers@), k)]
                    last_value(pair_views(r.mcp_providers@), k) == last_value(
                        pair_views(mcp_providers@),
                        k,
                    )
            },
    {
        let ghost input = pair_views(mcp_providers@);
        let mut providers: Vec<(String, String)> = Vec::new();
        let mut n: usize = 0;
        let collected = mcp_providers;
        while n < collected.len()
            invariant
                n <= collected.len(),
                pair_views(collected@) == input,
                keys_sorted(pair_views(providers@)),
                forall|k: Seq<char>|
                    #![trigger last_value(pair_views(providers@), k)]
                    last_value(pair_views(providers@), k) == last_value(input.take(n as int), k),
            decreases collected.len() - n,
        {
            let key = collected[n].0.clone();
            let value = collected[n].1.clone();
            let ghost before = pair_views(providers@);
            insert_provider(&mut providers, key, value);
            proof {
                let p = input.take(n + 1);
                assert(p.drop_last() =~= input.take(n as int));
                assert(p.last() == input[n as int]);
                assert(input[n as int] == (collected@[n as int].0@, collected@[n as int].1@));
                assert forall|k: Seq<char>| #[trigger] last_value(pair_views(providers@), k)
                    == last_value(p, k) by {}
            }
            n += 1;
        }
        proof {
            assert(input.take(input.len() as int) =~= input);
        }
        let requirements = CharacterRequirements {
            mjai: mjai.to_owned(),
            builtin: builtin.to_owned(),
            mcp: mcp.to_owned(),
            mcp_providers: providers,
        };
        match requirements.validate() {
            Ok(()) => {
                proof {
                    lemma_valid_collected(input, pair_views(requirements.mcp_providers@));
                }
                Ok(requirements)
            },
            Err(e) => {
                proof {
                    lemma_valid_collected(input, pair_views(requirements.mcp_providers@));
                }
                Err(e)
            },
        }
    }

    /// The requirements of a fresh install.
    pub fn starter() -> (res: CharacterRequirements)
        ensures
            res.mjai@ == "mjai-bot"@,
            res.builtin@ == "tsumogiri-bot"@,
            res.mcp@ == "mcp-agent"@,
            res.mcp_providers@.len() == 0,
    {
        CharacterRequirements {
            mjai: "mjai-bot".to_owned(),
            builtin: "tsumogiri-bot".to_owned(),
            mcp: "mcp-agent".to_owned(),
            mcp_providers: Vec::new(),
        }
    }

    /// Checks that every required id is safe and every provider name well
    /// formed.
    pub fn validate(&self) -> (res: Result<(), CharacterRegistryError>)
        ensures
            res is Ok <==> requirements_valid(
                self.mjai@,
                self.builtin@,
                self.mcp@,
                pair_views(self.mcp_providers@),
            ),
            res is Err ==> res == Err::<(), CharacterRegistryError>(
                CharacterRegistryError::InvalidRequirement,
            ),
    {
        if !is_safe_id(self.mjai.as_str()) || !is_safe_id(self.builtin.as_str()) || !is_safe_id(
            self.mcp.as_str(),
        ) {
            return Err(CharacterRegistryError::InvalidRequirement);
        }
        let ghost s = pair_views(self.mcp_providers@);
        let mut i: usize = 0;
        while i < self.mcp_providers.len()
            invariant
                i <= self.mcp_providers.len(),
                s == pair_views(self.mcp_providers@),
                forall|k: int|
                    0 <= k < i ==> spec_provider((#[trigger] s[k]).0) && spec_safe_id(s[k].1),
            decreases self.mcp_providers.len() - i,
        {
            assert(s[i as int] == (self.mcp_providers@[i as int].0@, self.mcp_providers@[i as int].1@));
            if !is_provider(self.mcp_providers[i].0.as_str()) || !is_safe_id(
                self.mcp_providers[i].1.as_str(),
            ) {
                return Err(CharacterRegistryError::InvalidRequirement);
            }
            i += 1;
        }
        Ok(())
    }

    /// The packs this requirement set expects, with their usages.
    pub fn expected(&self) -> (res: Vec<(String, CharacterUsage)>)
        ensures
            expected_views(res@) == spec_expected(
                self.mjai@,
                self.builtin@,
                self.mcp@,
                pair_views(self.mcp_providers@),
            ),
    {
        let mut res: Vec<(String, CharacterUsage)> = Vec::new();
        res.push((self.mjai.clone(), CharacterUsage::Mjai));
        res.push((self.builtin.clone(), CharacterUsage::Builtin));
        res.push((self.mcp.clone(), CharacterUsage::Mcp));
        proof {
            assert(provider_packs(pair_views(self.mcp_providers@).take(0)) =~= Seq::empty());
        }
        let ghost s = pair_views(self.mcp_providers@);
        let ghost head = seq![
            (self.mjai@, CharacterUsage::Mjai),
            (self.builtin@, CharacterUsage::Builtin),
            (self.mcp@, CharacterUsage::Mcp),
        ];
        let mut i: usize = 0;
        while i < self.mcp_providers.len()
            invariant
                i <= self.mcp_providers.len(),
                s == pair_views(self.mcp_providers@),
                expected_views(res@) == head + provider_packs(s.take(i as int)),
            decreases self.mcp_providers.len() - i,
        {
            let ghost before = res@;
            let pack = self.mcp_providers[i].1.clone();
            res.push((pack, CharacterUsage::Mcp));
            proof {
                assert(s[i as int] == (self.mcp_providers@[i as int].0@, self.mcp_providers@[i as int].1@));
                assert(s.take(i + 1) =~= s.take(i as int).push(s[i as int]));
                assert(provider_packs(s.take(i + 1)) =~= provider_packs(s.take(i as int)).push(
                    (s[i as int].1, CharacterUsage::Mcp),
                ));
                assert(expected_views(res@) =~= expected_views(before).push(
                    (pack@, CharacterUsage::Mcp),
                ));
            }
            i += 1;
        }
        proof {
            assert(s.take(s.len() as int) =~= s);
            assert(expected_views(res@) =~= head + provider_packs(s));
        }
        res
    }
}

/// A provider list is well formed exactly when the map collected from it is.
proof fn lemma_valid_collected(
    input: Seq<(Seq<char>, Seq<char>)>,
    sorted: Seq<(Seq<char>, Seq<char>)>,
)
    requires
        keys_sorted(sorted),
        forall|k: Seq<char>| #[trigger] last_value(sorted, k) == last_value(input, k),
    ensures
        providers_valid(input) <==> forall|i: int|
            0 <= i < sorted.len() ==> spec_provider((#[trigger] sorted[i]).0) && spec_safe_id(
                sorted[i].1,
            ),
{
    if providers_valid(input) {
        assert forall|i: int| 0 <= i < sorted.len() implies spec_provider(
            (#[trigger] sorted[i]).0,
        ) && spec_safe_id(sorted[i].1) by {
            lemma_last_value_found(sorted, i);
            let k = sorted[i].0;
            assert(last_value(input, k) == Some(sorted[i].1));
            lemma_last_value_in(input, k);
            let j = choose|j: int| 0 <= j < input.len() && #[trigger] input[j] == (k, sorted[i].1);
            assert(input[j].0 == k);
        }
    }
    if forall|i: int|
        0 <= i < sorted.len() ==> spec_provider((#[trigger] sorted[i]).0) && spec_safe_id(
            sorted[i].1,
        ) {
        assert forall|i: int| 0 <= i < input.len() implies spec_provider((#[trigger] input[i]).0)
            && spec_safe_id(last_value(input, input[i].0)->0) by {
            let k = input[i].0;
            lemma_last_value_present(input, i);
            lemma_last_value_in(sorted, k);
            let j = choose|j: int|
                0 <= j < sorted.len() && #[trigger] sorted[j] == (k, last_value(sorted, k)->0);
            assert(sorted[j].0 == k);
        }
    }
}

proof fn lemma_last_value_present(s: Seq<(Seq<char>, Seq<char>)>, i: int)
    requires
        0 <= i < s.len(),
    ensures
        last_value(s, s[i].0) is Some,
    decreases s.len(),
{
    if s.last().0 != s[i].0 {
        let t = s.drop_last();
        assert(i < s.len() - 1);
        assert(t[i] == s[i]);
        lemma_last_value_present(t, i);
    }
}

/// A copy of a list of string pairs.
pub fn clone_pairs(v: &Vec<(String, String)>) -> (res: Vec<(String, String)>)
    ensures
        pair_views(res@) == pair_views(v@),
{
    let mut res: Vec<(String, String)> = Vec::new();
    let mut i: usize = 0;
    while i < v.len()
        invariant
            i <= v.len(),
            pair_views(res@) == pair_views(v@).take(i as int),
        decreases v.len() - i,
    {
        let ghost before = pair_views(res@);
        res.push((v[i].0.clone(), v[i].1.clone()));
        proof {
            assert(pair_views(res@) =~= before.push((v@[i as int].0@, v@[i as int].1@)));
            assert(pair_views(v@).take(i + 1) =~= pair_views(v@).take(i as int).push(
                pair_views(v@)[i as int],
            ));
        }
        i += 1;
    }
    assert(pair_views(v@).take(v.len() as int) =~= pair_views(v@));
    res
}

} // verus!
