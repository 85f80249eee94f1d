//! Bot tokens: their records, the in-memory authority that authenticates
//! them, and the making of new ones.

use vstd::prelude::*;
use vstd::string::StringSliceAdditionalSpecFns;

use crate::auth::session::CredentialError;
use crate::crypto::{
    base64_url_nopad, base64_url_nopad_encoding, random_bytes_16, random_bytes_32, sha256,
    sha256_digest, url_safe_base64_char,
};
use crate::text::{chars_have_control, has_control, str_eq, string_from_chars, trim, trimmed_chars};

verus! {

#[derive(Debug, Clone, Copy, PartialEq, Eq, Structural)]
pub enum TokenState {
    Active,
    Revoked,
}

impl TokenState {
    pub open spec fn spec_as_str(self) -> Seq<char> {
        match self {
            TokenState::Active => "active"@,
            TokenState::Revoked => "revoked"@,
        }
    }

    pub fn as_str(self) -> (res: &'static str)
        ensures
            res@ == self.spec_as_str(),
    {
        match self {
            TokenState::Active => "active",
            TokenState::Revoked => "revoked",
        }
    }
}

pub struct BotTokenRecord {
    token_id: String,
    name: String,
    token_hash: [u8; 32],
    state: TokenState,
    created_at: i64,
    revoked_at: Option<i64>,
}

/// What a bot token record holds.
pub struct TokenRecordView {
    pub token_id: Seq<char>,
    pub name: Seq<char>,
    pub token_hash: Seq<u8>,
    pub state: TokenState,
    pub created_at: i64,
    pub revoked_at: Option<i64>,
}

impl View for BotTokenRecord {
    type V = TokenRecordView;

    closed spec fn view(&self) -> TokenRecordView {
        TokenRecordView {
            token_id: self.token_id@,
            name: self.name@,
            token_hash: self.token_hash@,
            state: self.state,
            created_at: self.created_at,
            revoked_at: self.revoked_at,
        }
    }
}

impl Clone for BotTokenRecord {
    fn clone(&self) -> (res: Self)
        ensures
            res@ == self@,
    {
        BotTokenRecord {
            token_id: self.token_id.clone(),
            name: self.name.clone(),
            token_hash: self.token_hash,
            state: self.state,
            created_at: self.created_at,
            revoked_at: self.revoked_at,
        }
    }
}

impl BotTokenRecord {
    pub fn new(
        token_id: String,
        name: String,
        token_hash: [u8; 32],
        state: TokenState,
        created_at: i64,
        revoked_at: Option<i64>,
    ) -> (res: Self)
        ensures
            res@ == (TokenRecordView {
                token_id: token_id@,
                name: name@,
                token_hash: token_hash@,
                state,
                created_at,
                revoked_at,
            }),
    {
        BotTokenRecord { token_id, name, token_hash, state, created_at, revoked_at }
    }

    pub fn token_id(&self) -> (res: &str)
        ensures
            res@ == self@.token_id,
    {
        self.token_id.as_str()
    }

    pub fn name(&self) -> (res: &str)
        ensures
            res@ == self@.name,
    {
        self.name.as_str()
    }

    pub fn state(&self) -> (res: TokenState)
        ensures
            res == self@.state,
    {
        self.state
    }

    pub fn created_at(&self) -> (res: i64)
        ensures
            res == self@.created_at,
    {
        self.created_at
    }

    pub fn revoked_at(&self) -> (res: Option<i64>)
        ensures
            res == self@.revoked_at,
    {
        self.revoked_at
    }

    pub fn token_hash(&self) -> (res: &[u8; 32])
        ensures
            res@ == self@.token_hash,
    {
        &self.token_hash
    }
}

/// The notice that a bot token was revoked.
pub struct TokenRevoked {
    token_id: String,
    state: TokenState,
}

impl View for TokenRevoked {
    type V = (Seq<char>, TokenState);

    closed spec fn view(&self) -> (Seq<char>, TokenState) {
        (self.token_id@, self.state)
    }
}

impl TokenRevoked {
    pub fn new(token_id: String) -> (res: Self)
        ensures
            res@ == (token_id@, TokenState::Revoked),
    {
        TokenRevoked { token_id, state: TokenState::Revoked }
    }

    pub fn token_id(&self) -> (res: &str)
        ensures
            res@ == self@.0,
    {
        self.token_id.as_str()
    }

    pub fn state(&self) -> (res: TokenState)
        ensures
            res == self@.1,
    {
        self.state
    }
}

/// The digest under which a raw bot token is kept: SHA-256 of its UTF-8 bytes.
pub open spec fn spec_hash_token(raw: Seq<char>) -> Seq<u8> {
    sha256_digest(vstd::utf8::encode_utf8(raw))
}

pub fn hash_token(raw_token: &str) -> (res: [u8; 32])
    ensures
        res@ == spec_hash_token(raw_token@),
{
    sha256(raw_token.as_bytes())
}

pub fn hash_bytes(bytes: &[u8]) -> (res: [u8; 32])
    ensures
        res@ == sha256_digest(bytes@),
{
    sha256(bytes)
}

/// `records` with `r` put in: replacing the record of the same digest, or
/// added at the end.
pub open spec fn insert_record(records: Seq<TokenRecordView>, r: TokenRecordView) -> Seq<
    TokenRecordView,
> {
    if exists|i: int| 0 <= i < records.len() && records[i].token_hash == r.token_hash {
        records.update(
            choose|i: int| 0 <= i < records.len() && records[i].token_hash == r.token_hash,
            r,
        )
    } else {
        records.push(r)
    }
}

/// The records that putting `rs` in order into `start` leaves.
pub open spec fn insert_records(start: Seq<TokenRecordView>, rs: Seq<TokenRecordView>) -> Seq<
    TokenRecordView,
>
    decreases rs.len(),
{
    if rs.len() == 0 {
        start
    } else {
        insert_record(insert_records(start, rs.drop_last()), rs.last())
    }
}

/// No two records share a digest.
pub open spec fn digests_unique(records: Seq<TokenRecordView>) -> bool {
    forall|i: int, j: int|
        0 <= i < records.len() && 0 <= j < records.len() && i != j ==> records[i].token_hash
            != records[j].token_hash
}

/// The token ids of the revoked records, in order.
pub open spec fn revoked_ids(records: Seq<TokenRecordView>) -> Seq<Seq<char>>
    decreases records.len(),
{
    if records.len() == 0 {
        Seq::empty()
    } else if records.last().state == TokenState::Revoked {
        revoked_ids(records.drop_last()).push(records.last().token_id)
    } else {
        revoked_ids(records.drop_last())
    }
}

/// The index of the first record with this token id, if any.
pub open spec fn first_with_id(records: Seq<TokenRecordView>, token_id: Seq<char>) -> Option<int> {
    if exists|i: int| 0 <= i < records.len() && records[i].token_id == token_id {
        Some(first_index_with_id(records, token_id))
    } else {
        None
    }
}

/// When a record with this token id exists, the least one is chosen.
pub proof fn lemma_first_index_exists(records: Seq<TokenRecordView>, token_id: Seq<char>, w: int)
    requires
        0 <= w < records.len(),
        records[w].token_id == token_id,
    ensures
        ({
            let i = first_index_with_id(records, token_id);
            &&& 0 <= i < records.len()
            &&& records[i].token_id == token_id
            &&& forall|k: int| 0 <= k < i ==> records[k].token_id != token_id
        }),
    decreases w,
{
    if exists|k: int| 0 <= k < w && records[k].token_id == token_id {
        let k = choose|k: int| 0 <= k < w && records[k].token_id == token_id;
        lemma_first_index_exists(records, token_id, k);
    } else {
        assert(0 <= w < records.len() && records[w].token_id == token_id && forall|k: int|
            0 <= k < w ==> records[k].token_id != token_id);
    }
}

/// The least index of a record with this token id.
pub open spec fn first_index_with_id(records: Seq<TokenRecordView>, token_id: Seq<char>) -> int {
    choose|i: int|
        0 <= i < records.len() && records[i].token_id == token_id && forall|k: int|
            0 <= k < i ==> records[k].token_id != token_id
}

/// The bot tokens known to the server, one record per token digest.
pub struct BotTokenAuthority {
    records: Vec<BotTokenRecord>,
}

impl View for BotTokenAuthority {
    /// The records, in the order they were first put in.
    type V = Seq<TokenRecordView>;

    closed spec fn view(&self) -> Seq<TokenRecordView> {
        self.records@.map_values(|r: BotTokenRecord| r@)
    }
}

impl BotTokenAuthority {
    #[verifier::type_invariant]
    spec fn unique(self) -> bool {
        digests_unique(self@)
    }

    pub fn empty() -> (res: Self)
        ensures
            res@ == Seq::<TokenRecordView>::empty(),
    {
        let res = BotTokenAuthority { records: Vec::new() };
        assert(res@ =~= Seq::<TokenRecordView>::empty());
        res
    }

    /// The authority holding `records`; a later record replaces an earlier one
    /// with the same digest.
    pub fn from_records(records: Vec<BotTokenRecord>) -> (res: Self)
        ensures
            res@ == insert_records(Seq::empty(), records@.map_values(|r: BotTokenRecord| r@)),
    {
        let mut authority = BotTokenAuthority::empty();
        let ghost views = records@.map_values(|r: BotTokenRecord| r@);
        let n = records.len();
        assert(views.take(0) =~= Seq::<TokenRecordView>::empty());
        let mut i: usize = 0;
        while i < n
            invariant
                n == records@.len(),
                views == records@.map_values(|r: BotTokenRecord| r@),
                i <= n,
                authority@ == insert_records(Seq::empty(), views.take(i as int)),
            decreases n - i,
        {
            let r = records[i].clone();
            assert(views.take(i + 1).drop_last() =~= views.take(i as int));
            authority.insert_active(r);
            i += 1;
        }
        assert(views.take(n as int) =~= views);
        authority
    }

    /// Puts `record` in, replacing the record with the same digest.
    pub fn insert_active(&mut self, record: BotTokenRecord)
        ensures
            final(self)@ == insert_record(old(self)@, record@),
    {
        proof {
            use_type_invariant(&*self);
        }
        let ghost before = self@;
        let mut records = Vec::new();
        std::mem::swap(&mut records, &mut self.records);
        let mut i: usize = 0;
        let mut found: Option<usize> = None;
        while i < records.len()
            invariant
                records@.map_values(|r: BotTokenRecord| r@) == before,
                digests_unique(before),
                i <= records@.len(),
                match found {
                    Some(f) => f < records@.len() && records@[f as int]@.token_hash
                        == record@.token_hash,
                    None => forall|k: int|
                        0 <= k < i ==> records@[k]@.token_hash != record@.token_hash,
                },
            decreases records@.len() - i,
        {
            if found.is_none() && crate::auth::tokens::digests_equal(&records[i].token_hash, &record.token_hash) {
                found = Some(i);
            }
            i += 1;
        }
        let ghost rv = record@;
        match found {
            Some(f) => {
                proof {
                    assert(0 <= f < before.len() && before[f as int].token_hash == rv.token_hash);
                    let c = choose|k: int| 0 <= k < before.len() && before[k].token_hash == rv.token_hash;
                    assert(c == f);
                }
                records.set(f, record);
                proof {
                    assert(records@.map_values(|r: BotTokenRecord| r@) =~= before.update(f as int, rv));
                }
            },
            None => {
                proof {
                    assert(!(exists|k: int| 0 <= k < before.len() && before[k].token_hash == rv.token_hash)) by {
                        if exists|k: int| 0 <= k < before.len() && before[k].token_hash == rv.token_hash {
                            let k = choose|k: int| 0 <= k < before.len() && before[k].token_hash == rv.token_hash;
                            assert(records@[k]@.token_hash == rv.token_hash);
                        }
                    }
                }
                records.push(record);
                proof {
                    assert(records@.map_values(|r: BotTokenRecord| r@) =~= before.push(rv));
                }
            },
        }
        self.records = records;
    }

    /// The record of `raw_token`, if it is known and active.
    pub fn authenticate(&self, raw_token: &str) -> (res: Result<BotTokenRecord, CredentialError>)
        ensures
            (exists|i: int|
                0 <= i < self@.len() && self@[i].token_hash == spec_hash_token(raw_token@)
                    && self@[i].state == TokenState::Active) ==> res is Ok && (exists|i: int|
                0 <= i < self@.len() && self@[i].token_hash == spec_hash_token(raw_token@)
                    && res->Ok_0@ == self@[i]),
            !(exists|i: int|
                0 <= i < self@.len() && self@[i].token_hash == spec_hash_token(raw_token@)
                    && self@[i].state == TokenState::Active) ==> res == Err::<
                BotTokenRecord,
                CredentialError,
            >(CredentialError::InvalidCredentials),
    {
        proof {
            use_type_invariant(self);
        }
        let hash = hash_token(raw_token);
        let mut i: usize = 0;
        while i < self.records.len()
            invariant
                i <= self@.len(),
                self@ == self.records@.map_values(|r: BotTokenRecord| r@),
                digests_unique(self@),
                hash@ == spec_hash_token(raw_token@),
                forall|k: int| 0 <= k < i ==> self@[k].token_hash != hash@,
            decreases self@.len() - i,
        {
            if digests_equal(&self.records[i].token_hash, &hash) {
                if self.records[i].state == TokenState::Active {
                    return Ok(self.records[i].clone());
                }
                proof {
                    assert forall|k: int|
                        0 <= k < self@.len() && self@[k].token_hash == hash@ implies self@[k].state
                        != TokenState::Active by {
                        if k != i {
                            assert(self@[k].token_hash != self@[i as int].token_hash);
                        }
                    }
                }
                return Err(CredentialError::InvalidCredentials);
            }
            i += 1;
        }
        Err(CredentialError::InvalidCredentials)
    }

    /// The token ids of the revoked records.
    pub fn revoked_token_ids(&self) -> (res: Vec<String>)
        ensures
            res@.map_values(|s: String| s@) == revoked_ids(self@),
    {
        let mut res: Vec<String> = Vec::new();
        let mut i: usize = 0;
        while i < self.records.len()
            invariant
                i <= self@.len(),
                self@ == self.records@.map_values(|r: BotTokenRecord| r@),
                res@.map_values(|s: String| s@) == revoked_ids(self@.take(i as int)),
            decreases self@.len() - i,
        {
            assert(self@.take(i + 1).drop_last() =~= self@.take(i as int));
            if self.records[i].state == TokenState::Revoked {
                res.push(self.records[i].token_id.clone());
                assert(res@.map_values(|s: String| s@) =~= revoked_ids(self@.take(i as int)).push(
                    self@[i as int].token_id,
                ));
            }
            i += 1;
        }
        assert(self@.take(self@.len() as int) =~= self@);
        res
    }

    /// Marks the first record with `token_id` revoked at `revoked_at`.
    pub fn revoke(&mut self, token_id: &str, revoked_at: i64) -> (res: Result<
        TokenRevoked,
        CredentialError,
    >)
        ensures
            match first_with_id(old(self)@, token_id@) {
                None => res == Err::<TokenRevoked, CredentialError>(
                    CredentialError::InvalidCredentials,
                ) && final(self)@ == old(self)@,
                Some(i) => if old(self)@[i].state == TokenState::Revoked {
                    res == Err::<TokenRevoked, CredentialError>(CredentialError::AlreadyRevoked)
                        && final(self)@ == old(self)@
                } else {
                    res is Ok && res->Ok_0@ == (token_id@, TokenState::Revoked) && final(self)@
                        == old(self)@.update(
                        i,
                        TokenRecordView {
                            state: TokenState::Revoked,
                            revoked_at: Some(revoked_at),
                            ..old(self)@[i]
                        },
                    )
                },
            },
    {
        match self.first_index_of(token_id) {
            None => Err(CredentialError::InvalidCredentials),
            Some(i) => {
                if self.records[i].state == TokenState::Revoked {
                    return Err(CredentialError::AlreadyRevoked);
                }
                self.mark_revoked(i, revoked_at);
                Ok(TokenRevoked::new(token_id.to_owned()))
            },
        }
    }

    /// The least index of a record with `token_id`.
    fn first_index_of(&self, token_id: &str) -> (res: Option<usize>)
        ensures
            res matches Some(i) ==> i < self@.len() && first_with_id(self@, token_id@) == Some(
                i as int,
            ),
            res is None ==> first_with_id(self@, token_id@) is None,
            self@.len() == self.records@.len(),
    {
        let mut i: usize = 0;
        while i < self.records.len()
            invariant
                i <= self@.len(),
                self@ == self.records@.map_values(|r: BotTokenRecord| r@),
                forall|k: int| 0 <= k < i ==> self@[k].token_id != token_id@,
            decreases self@.len() - i,
        {
            if str_eq(self.records[i].token_id.as_str(), token_id) {
                proof {
                    assert(0 <= i < self@.len() && self@[i as int].token_id == token_id@
                        && forall|k: int| 0 <= k < i ==> self@[k].token_id != token_id@);
                    let c = first_index_with_id(self@, token_id@);
                    assert(c == i) by {
                        if c > i {
                            assert(self@[i as int].token_id == token_id@);
                        }
                    }
                }
                return Some(i);
            }
            i += 1;
        }
        None
    }

    fn mark_revoked(&mut self, i: usize, revoked_at: i64)
        requires
            i < old(self)@.len(),
        ensures
            final(self)@ == old(self)@.update(
                i as int,
                TokenRecordView {
                    state: TokenState::Revoked,
                    revoked_at: Some(revoked_at),
                    ..old(self)@[i as int]
                },
            ),
    {
        proof {
            use_type_invariant(&*self);
        }
        let ghost before = self@;
        let mut records = Vec::new();
        std::mem::swap(&mut records, &mut self.records);
        let mut record = records.remove(i);
        let ghost old_view = record@;
        record.state = TokenState::Revoked;
        record.revoked_at = Some(revoked_at);
        records.insert(i, record);
        proof {
            let after = before.update(
                i as int,
                TokenRecordView { state: TokenState::Revoked, revoked_at: Some(revoked_at), ..old_view },
            );
            assert(records@.map_values(|r: BotTokenRecord| r@) =~= after);
            assert forall|a: int| 0 <= a < after.len() implies #[trigger] after[a].token_hash
                == before[a].token_hash by {}
            assert(digests_unique(after));
        }
        self.records = records;
    }
}

/// Whether two digests are equal.
pub fn digests_equal(a: &[u8; 32], b: &[u8; 32]) -> (res: bool)
    ensures
        res == (a@ == b@),
{
    let mut i: usize = 0;
    while i < 32
        invariant
            i <= 32,
            a@.len() == 32,
            b@.len() == 32,
            forall|k: int| 0 <= k < i ==> a@[k] == b@[k],
        decreases 32 - i,
    {
        if a[i] != b[i] {
            return false;
        }
        i += 1;
    }
    assert(a@ =~= b@);
    true
}

} // verus!

verus! {

/// A raw bot token, handed out once when the token is made.
pub struct BotTokenSecret(String);

impl View for BotTokenSecret {
    type V = Seq<char>;

    closed spec fn view(&self) -> Seq<char> {
        self.0@
    }
}

impl BotTokenSecret {
    pub fn expose(&self) -> (res: &str)
        ensures
            res@ == self@,
    {
        self.0.as_str()
    }
}

/// A new bot token: its record and its raw secret.
pub struct CreatedBotToken {
    record: BotTokenRecord,
    secret: BotTokenSecret,
}

impl CreatedBotToken {
    pub closed spec fn spec_record(&self) -> TokenRecordView {
        self.record@
    }

    pub closed spec fn spec_secret(&self) -> Seq<char> {
        self.secret@
    }

    pub fn record(&self) -> (res: &BotTokenRecord)
        ensures
            res@ == self.spec_record(),
    {
        &self.record
    }

    pub fn secret(&self) -> (res: &BotTokenSecret)
        ensures
            res@ == self.spec_secret(),
    {
        &self.secret
    }
}

/// The form of a raw bot token: `driichi_` and the unpadded URL-safe base64
/// of 32 bytes.
pub open spec fn is_bot_secret_text(raw: Seq<char>) -> bool {
    exists|bytes: Seq<u8>| bytes.len() == 32 && raw == "driichi_"@ + base64_url_nopad_encoding(bytes)
}

/// The form of a token id: `tok_` and the unpadded URL-safe base64 of 16
/// bytes.
pub open spec fn is_token_id_text(id: Seq<char>) -> bool {
    exists|bytes: Seq<u8>| bytes.len() == 16 && id == "tok_"@ + base64_url_nopad_encoding(bytes)
}

/// Makes a random raw bot token and its digest.
pub fn generate_bot_secret() -> (res: (String, [u8; 32]))
    ensures
        is_bot_secret_text(res.0@),
        res.0@.len() == 51,
        forall|i: int| 8 <= i < 51 ==> url_safe_base64_char(#[trigger] res.0@[i]),
        res.0@.subrange(0, 8) == "driichi_"@,
        res.1@ == spec_hash_token(res.0@),
{
    let bytes = random_bytes_32();
    let encoded = base64_url_nopad(&bytes);
    let mut raw = "driichi_".to_owned();
    proof {
        reveal_strlit("driichi_");
    }
    raw.append(encoded.as_str());
    let hash = hash_token(raw.as_str());
    proof {
        assert(raw@.subrange(0, 8) =~= "driichi_"@);
        assert forall|i: int| 8 <= i < 51 implies url_safe_base64_char(#[trigger] raw@[i]) by {
            assert(raw@[i] == encoded@[i - 8]);
        }
    }
    (raw, hash)
}

/// Makes a random token id.
pub fn generate_token_id() -> (res: String)
    ensures
        is_token_id_text(res@),
        res@.len() == 26,
        res@.subrange(0, 4) == "tok_"@,
        forall|i: int| 4 <= i < 26 ==> url_safe_base64_char(#[trigger] res@[i]),
{
    let bytes = random_bytes_16();
    let encoded = base64_url_nopad(&bytes);
    let mut id = "tok_".to_owned();
    proof {
        reveal_strlit("tok_");
    }
    id.append(encoded.as_str());
    proof {
        assert(id@.subrange(0, 4) =~= "tok_"@);
        assert forall|i: int| 4 <= i < 26 implies url_safe_base64_char(#[trigger] id@[i]) by {
            assert(id@[i] == encoded@[i - 4]);
        }
    }
    id
}

/// How a token name is kept: without surrounding whitespace.
pub open spec fn token_name_ok(name: Seq<char>) -> bool {
    trim(name).len() != 0 && trim(name).len() <= 64 && !has_control(trim(name))
}

pub fn normalize_token_name(name: &str) -> (res: Result<String, CredentialError>)
    ensures
        token_name_ok(name@) ==> res is Ok && res->Ok_0@ == trim(name@),
        !token_name_ok(name@) ==> res == Err::<String, CredentialError>(
            CredentialError::InvalidTokenName,
        ),
{
    let trimmed = trimmed_chars(name);
    if trimmed.len() == 0 || trimmed.len() > 64 || chars_have_control(trimmed.as_slice()) {
        return Err(CredentialError::InvalidTokenName);
    }
    Ok(string_from_chars(trimmed.as_slice()))
}

/// Makes a new active bot token named `name`, created at `created_at`.
pub fn create_bot_token(name: &str, created_at: i64) -> (res: Result<CreatedBotToken, CredentialError>)
    ensures
        !token_name_ok(name@) ==> res == Err::<CreatedBotToken, CredentialError>(
            CredentialError::InvalidTokenName,
        ),
        token_name_ok(name@) ==> (res matches Ok(created) && {
            let r = created.spec_record();
            &&& r.name == trim(name@)
            &&& r.state == TokenState::Active
            &&& r.created_at == created_at
            &&& r.revoked_at is None
            &&& is_token_id_text(r.token_id)
            &&& r.token_id.len() == 26
            &&& r.token_id.subrange(0, 4) == "tok_"@
            &&& forall|i: int| 4 <= i < 26 ==> url_safe_base64_char(#[trigger] r.token_id[i])
            &&& is_bot_secret_text(created.spec_secret())
            &&& created.spec_secret().len() == 51
            &&& created.spec_secret().subrange(0, 8) == "driichi_"@
            &&& forall|i: int| 8 <= i < 51 ==> url_safe_base64_char(#[trigger] created.spec_secret()[i])
            &&& r.token_hash == spec_hash_token(created.spec_secret())
        }),
{
    let name = normalize_token_name(name)?;
    let (raw, token_hash) = generate_bot_secret();
    let record = BotTokenRecord::new(
        generate_token_id(),
        name,
        token_hash,
        TokenState::Active,
        created_at,
        None,
    );
    Ok(CreatedBotToken { record, secret: BotTokenSecret(raw) })
}

/// What the token store reports of revoking a token.
pub enum RevokeOutcome {
    Revoked { name: String },
    AlreadyRevoked,
    NotFound,
}

impl BotTokenAuthority {
    /// Brings the authority in line with the store's answer to revoking
    /// `token_id`: a store that revoked it has the authority revoke it too.
    pub fn complete_revoke(&mut self, outcome: &RevokeOutcome, token_id: &str, revoked_at: i64) -> (res: Result<TokenRevoked, CredentialError>)
        ensures
            outcome is AlreadyRevoked ==> res == Err::<TokenRevoked, CredentialError>(
                CredentialError::AlreadyRevoked,
            ) && final(self)@ == old(self)@,
            outcome is NotFound ==> res == Err::<TokenRevoked, CredentialError>(
                CredentialError::InvalidCredentials,
            ) && final(self)@ == old(self)@,
            outcome is Revoked ==> match first_with_id(old(self)@, token_id@) {
                None => res == Err::<TokenRevoked, CredentialError>(
                    CredentialError::InvalidCredentials,
                ) && final(self)@ == old(self)@,
                Some(i) => if old(self)@[i].state == TokenState::Revoked {
                    res == Err::<TokenRevoked, CredentialError>(CredentialError::AlreadyRevoked)
                        && final(self)@ == old(self)@
                } else {
                    res is Ok && res->Ok_0@ == (token_id@, TokenState::Revoked) && final(self)@
                        == old(self)@.update(
                        i,
                        TokenRecordView {
                            state: TokenState::Revoked,
                            revoked_at: Some(revoked_at),
                            ..old(self)@[i]
                        },
                    )
                },
            },
    {
        match outcome {
            RevokeOutcome::AlreadyRevoked => Err(CredentialError::AlreadyRevoked),
            RevokeOutcome::NotFound => Err(CredentialError::InvalidCredentials),
            RevokeOutcome::Revoked { .. } => self.revoke(token_id, revoked_at),
        }
    }
}

} // verus!
