//! What holds of character packs across their functions: names read back,
//! distinct asset paths, lookups by id, entity tags, and the packs that a
//! successful load guarantees.

use vstd::prelude::*;

use crate::characters::assets::{
    asset_path, spec_etag_matches, voice_name, voice_named, CharacterAsset, CharacterUsage,
    VoiceLine,
};
use crate::characters::registry::{
    expectation_failure, has_human, has_pack, hex_digits, hex_lower, pack_lookup,
    registry_packs, spec_etag, FolderView, PackView,
};
use crate::text::{find_char, lemma_find_char, spec_is_whitespace, split_on, trim, trim_end, trim_start};

verus! {

/// Reading back the name of a voice line gives the line.
pub proof fn law_voice_name_round_trip(v: VoiceLine)
    ensures
        voice_named(voice_name(v)) == Some(v),
{
    reveal_strlit("chi");
    reveal_strlit("pon");
    reveal_strlit("kan");
    reveal_strlit("riichi");
    reveal_strlit("ron");
    reveal_strlit("tsumo");
    let n = voice_name(v);
    assert(n.len() != "chi"@.len() || n[0] != 'c' ==> n != "chi"@);
    assert(n.len() != "pon"@.len() || n[0] != 'p' ==> n != "pon"@);
    assert(n.len() != "kan"@.len() || n[0] != 'k' ==> n != "kan"@);
    assert(n.len() != "riichi"@.len() ==> n != "riichi"@);
    assert(n.len() != "ron"@.len() || n[0] != 'r' ==> n != "ron"@);
    assert(n.len() != "tsumo"@.len() ==> n != "tsumo"@);
}

/// Distinct assets of a pack lie at distinct paths.
pub proof fn law_asset_paths_distinct(a: CharacterAsset, b: CharacterAsset)
    requires
        a != b,
    ensures
        asset_path(a) != asset_path(b),
{
    reveal_strlit("portrait.webp");
    reveal_strlit("icon.webp");
    reveal_strlit("voices/chi.ogg");
    reveal_strlit("voices/pon.ogg");
    reveal_strlit("voices/kan.ogg");
    reveal_strlit("voices/riichi.ogg");
    reveal_strlit("voices/ron.ogg");
    reveal_strlit("voices/tsumo.ogg");
    if asset_path(a) == asset_path(b) {
        let x = asset_path(a);
        assert(x.len() == asset_path(b).len());
        assert(x[0] == asset_path(b)[0]);
        if x.len() > 8 {
            assert(x[7] == asset_path(b)[7]);
            assert(x[8] == asset_path(b)[8]);
        }
    }
}

/// A lookup by id finds a pack exactly when one has that id, and the pack
/// it finds has it.
pub proof fn law_lookup_by_id(packs: Seq<PackView>, id: Seq<char>)
    ensures
        pack_lookup(packs, id) matches Some(p) ==> p.id == id,
        pack_lookup(packs, id) is Some <==> has_pack(packs, id),
    decreases packs.len(),
{
    if packs.len() > 0 {
        let t = packs.drop_first();
        law_lookup_by_id(t, id);
        if packs[0].id != id {
            if has_pack(packs, id) {
                let i = choose|i: int| 0 <= i < packs.len() && (#[trigger] packs[i]).id == id;
                assert(t[i - 1] == packs[i]);
            }
            if has_pack(t, id) {
                let i = choose|i: int| 0 <= i < t.len() && (#[trigger] t[i]).id == id;
                assert(packs[i + 1] == t[i]);
            }
        } else {
            assert(packs[0].id == id);
        }
    }
}

/// A successful load holds a pack for humans and every expected pack, each
/// with the usage it is expected to have.
pub proof fn law_loaded_packs_meet_expectations(
    root: Seq<char>,
    folders: Seq<FolderView>,
    expected: Seq<(Seq<char>, CharacterUsage)>,
)
    requires
        registry_packs(root, folders, Some(expected)) is Ok,
    ensures
        has_human(registry_packs(root, folders, Some(expected))->Ok_0),
        forall|i: int|
            0 <= i < expected.len() ==> (pack_lookup(
                registry_packs(root, folders, Some(expected))->Ok_0,
                #[trigger] expected[i].0,
            ) matches Some(p) && p.usage == expected[i].1),
{
    let packs = registry_packs(root, folders, Some(expected))->Ok_0;
    lemma_no_failure_means_met(packs, expected);
}

proof fn lemma_no_failure_means_met(packs: Seq<PackView>, expected: Seq<(Seq<char>, CharacterUsage)>)
    requires
        expectation_failure(packs, expected) is None,
    ensures
        forall|i: int|
            0 <= i < expected.len() ==> (pack_lookup(packs, #[trigger] expected[i].0) matches Some(p)
                && p.usage == expected[i].1),
    decreases expected.len(),
{
    if expected.len() > 0 {
        let t = expected.drop_first();
        lemma_no_failure_means_met(packs, t);
        assert forall|i: int| 0 <= i < expected.len() implies (pack_lookup(
            packs,
            #[trigger] expected[i].0,
        ) matches Some(p) && p.usage == expected[i].1) by {
            if i > 0 {
                assert(expected[i] == t[i - 1]);
            }
        }
    }
}

/// The entity tag of a file matches an `If-None-Match` header that repeats
/// it.
pub proof fn law_etag_matches_itself(bytes: Seq<u8>)
    ensures
        spec_etag_matches(spec_etag(bytes), spec_etag(bytes)),
{
    let e = spec_etag(bytes);
    let h = hex_lower(crate::crypto::sha256_digest(bytes));
    assert forall|k: int| 0 <= k < e.len() implies #[trigger] e[k] != ',' && !spec_is_whitespace(e[k]) by {
        if 0 < k < e.len() - 1 {
            assert(e[k] == h[k - 1]);
            let d = hex_digits();
            assert(d =~= seq!['0', '1', '2', '3', '4', '5', '6', '7', '8', '9', 'a', 'b', 'c', 'd', 'e', 'f']);
        }
    }
    lemma_find_char(e, ',', e.len() as int);
    assert(split_on(e, ',') == seq![e]);
    assert(trim_start(e) == e);
    assert(trim_end(e) == e);
    assert(trim(e) == e);
    assert(split_on(e, ',')[0] == e);
}

/// An entity tag is 66 characters: the 32 bytes of a digest as 64
/// hexadecimal digits, in double quotes (every digest that `sha256` gives
/// has 32 bytes; see `etag_of`).
pub proof fn law_etag_has_66_chars(bytes: Seq<u8>)
    requires
        crate::crypto::sha256_digest(bytes).len() == 32,
    ensures
        spec_etag(bytes).len() == 66,
{
}

} // verus!
