//! The problem documents the HTTP API answers errors with, the error that
//! each failure maps to, and the headers every response gets.

use vstd::prelude::*;

use crate::json::{json_view, JsonValue, JsonView};
use crate::text::{chars_of, chars_start_with, starts_with};
use crate::time::{decimal_digits, push_padded};

verus! {

/// An API error: its HTTP status, title, detail and machine code.
#[derive(Debug, Clone, Copy)]
pub struct ApiError {
    pub status: u16,
    pub title: &'static str,
    pub detail: &'static str,
    pub code: &'static str,
}

/// What an API error holds.
pub open spec fn error_fields(e: ApiError) -> (u16, Seq<char>, Seq<char>, Seq<char>) {
    (e.status, e.title@, e.detail@, e.code@)
}

impl ApiError {
    pub fn new(status: u16, title: &'static str, detail: &'static str, code: &'static str) -> (res:
        ApiError)
        ensures
            error_fields(res) == (status, title@, detail@, code@),
    {
        ApiError { status, title, detail, code }
    }
}

/// The problem document of `e` for the request `request_id`.
pub open spec fn spec_problem_document(e: ApiError, request_id: Seq<char>) -> JsonView {
    JsonView::Object(
        seq![
            ("type"@, JsonView::Str("about:blank"@)),
            ("title"@, JsonView::Str(e.title@)),
            ("status"@, JsonView::Number(decimal_digits(e.status as nat))),
            ("detail"@, JsonView::Str(e.detail@)),
            ("code"@, JsonView::Str(e.code@)),
            ("request_id"@, JsonView::Str(request_id)),
        ],
    )
}

/// The problem document (`application/problem+json`) of `e` for the
/// request `request_id`.
pub fn problem_document(e: &ApiError, request_id: &str) -> (res: JsonValue)
    ensures
        json_view(res) == spec_problem_document(*e, request_id@),
{
    let mut status = String::new();
    push_padded(&mut status, e.status as u64, 0);
    let entries = vec![
        ("type".to_owned(), JsonValue::String("about:blank".to_owned())),
        ("title".to_owned(), JsonValue::String(e.title.to_owned())),
        ("status".to_owned(), JsonValue::Number(status)),
        ("detail".to_owned(), JsonValue::String(e.detail.to_owned())),
        ("code".to_owned(), JsonValue::String(e.code.to_owned())),
        ("request_id".to_owned(), JsonValue::String(request_id.to_owned())),
    ];
    let res = JsonValue::Object(entries);
    proof {
        reveal_with_fuel(json_view, 2);
        assert(crate::time::zero_padded(e.status as nat, 0) == decimal_digits(e.status as nat));
        if let JsonView::Object(s) = json_view(res) {
            assert(s =~= seq![
                ("type"@, JsonView::Str("about:blank"@)),
                ("title"@, JsonView::Str(e.title@)),
                ("status"@, JsonView::Number(decimal_digits(e.status as nat))),
                ("detail"@, JsonView::Str(e.detail@)),
                ("code"@, JsonView::Str(e.code@)),
                ("request_id"@, JsonView::Str(request_id@)),
            ]);
        }
    }
    res
}

/// The request body is not acceptable.
pub fn invalid_request() -> (res: ApiError)
    ensures
        error_fields(res) == (400u16, "Invalid request"@, "The request body is invalid."@,
        "invalid_request"@),
{
    ApiError::new(400, "Invalid request", "The request body is invalid.", "invalid_request")
}

/// The server failed.
pub fn internal_error() -> (res: ApiError)
    ensures
        error_fields(res) == (500u16, "Internal server error"@,
        "The server could not complete the request."@, "internal_error"@),
{
    ApiError::new(
        500,
        "Internal server error",
        "The server could not complete the request.",
        "internal_error",
    )
}

/// No room has the code.
pub fn room_not_found() -> (res: ApiError)
    ensures
        error_fields(res) == (404u16, "Room not found"@, "The room does not exist."@,
        "room_not_found"@),
{
    ApiError::new(404, "Room not found", "The room does not exist.", "room_not_found")
}

/// The credentials are wrong.
pub fn invalid_credentials() -> (res: ApiError)
    ensures
        error_fields(res) == (401u16, "Unauthorized"@, "The supplied credentials are invalid."@,
        "invalid_credentials"@),
{
    ApiError::new(401, "Unauthorized", "The supplied credentials are invalid.", "invalid_credentials")
}

/// The request comes from another origin.
pub fn origin_not_allowed() -> (res: ApiError)
    ensures
        error_fields(res) == (403u16, "Origin not allowed"@, "The request origin is not allowed."@,
        "origin_not_allowed"@),
{
    ApiError::new(403, "Origin not allowed", "The request origin is not allowed.", "origin_not_allowed")
}

/// The server holds as many connections as it may.
pub fn server_busy() -> (res: ApiError)
    ensures
        error_fields(res) == (503u16, "Server busy"@,
        "The server cannot accept another connection."@, "server_busy"@),
{
    ApiError::new(503, "Server busy", "The server cannot accept another connection.", "server_busy")
}

/// The bot is already queued or playing.
pub fn already_connected() -> (res: ApiError)
    ensures
        error_fields(res) == (409u16, "Already connected"@, "This bot is already queued or playing."@,
        "already_connected"@),
{
    ApiError::new(409, "Already connected", "This bot is already queued or playing.", "already_connected")
}

/// Nothing is found at the path.
pub fn not_found() -> (res: ApiError)
    ensures
        error_fields(res) == (404u16, "Not found"@, "The requested resource does not exist."@,
        "not_found"@),
{
    ApiError::new(404, "Not found", "The requested resource does not exist.", "not_found")
}

/// The request needs an authenticated admin.
pub fn authentication_required() -> (res: ApiError)
    ensures
        error_fields(res) == (401u16, "Unauthorized"@, "Authentication is required."@,
        "authentication_required"@),
{
    ApiError::new(401, "Unauthorized", "Authentication is required.", "authentication_required")
}

/// The rate limit is exceeded; the answer asks the client to retry after
/// the window, in whole seconds.
pub fn rate_limited(window_millis: u64) -> (res: (ApiError, u64))
    ensures
        error_fields(res.0) == (429u16, "Too many requests"@,
        "The request rate limit has been exceeded."@, "rate_limited"@),
        res.1 == window_millis / 1000,
{
    (
        ApiError::new(
            429,
            "Too many requests",
            "The request rate limit has been exceeded.",
            "rate_limited",
        ),
        window_millis / 1000,
    )
}

/// The request body is larger than allowed.
pub fn request_too_large() -> (res: ApiError)
    ensures
        error_fields(res) == (413u16, "Request too large"@,
        "The request body exceeds the allowed limit."@, "request_too_large"@),
{
    ApiError::new(
        413,
        "Request too large",
        "The request body exceeds the allowed limit.",
        "request_too_large",
    )
}

/// The request body is not JSON.
pub fn unsupported_media_type() -> (res: ApiError)
    ensures
        error_fields(res) == (415u16, "Unsupported media type"@,
        "The request must use application/json."@, "unsupported_media_type"@),
{
    ApiError::new(
        415,
        "Unsupported media type",
        "The request must use application/json.",
        "unsupported_media_type",
    )
}

/// The server is shutting down.
pub fn server_shutting_down() -> (res: ApiError)
    ensures
        error_fields(res) == (503u16, "Server shutting down"@,
        "The server is not accepting new requests."@, "server_shutting_down"@),
{
    ApiError::new(
        503,
        "Server shutting down",
        "The server is not accepting new requests.",
        "server_shutting_down",
    )
}

/// Why a room refused a command, as far as the answer depends on it.
#[derive(Debug, Clone, Copy, PartialEq, Eq, Structural)]
pub enum RoomErrorKind {
    Busy,
    RoomFull,
    NotLobby,
    NotEnoughPlayers,
    NotReady,
    NotSelected,
    ParticipantNotFound,
    InvalidCharacter,
    PreloadIncomplete,
    AlreadySelected,
    Disconnected,
    DeleteWhilePlaying,
    Persistence,
    Deleted,
    Closed,
    ControllerNotInteractive,
    NotPlaying,
    Playing,
    /// A refusal by the match itself.
    Match,
    RematchUnavailable,
    /// Any other refusal.
    Other,
}

/// The answer to a room's refusal.
pub open spec fn spec_room_error(e: RoomErrorKind) -> (u16, Seq<char>, Seq<char>, Seq<char>) {
    match e {
        RoomErrorKind::Busy => (503u16, "Room busy"@, "The room is temporarily busy."@, "room_busy"@),
        RoomErrorKind::RoomFull => (409u16, "Room full"@,
        "The room cannot accept another participant."@, "room_full"@),
        RoomErrorKind::NotLobby => (409u16, "Room is not in the Lobby"@,
        "That command is unavailable in the current Room phase."@, "not_lobby"@),
        RoomErrorKind::NotEnoughPlayers | RoomErrorKind::NotReady => (409u16, "Room is not ready"@,
        "The Room does not have an eligible ready roster."@, "room_not_ready"@),
        RoomErrorKind::NotSelected => (409u16, "Participant is not selected"@,
        "The Participant is not selected for this Match."@, "not_selected"@),
        RoomErrorKind::ParticipantNotFound => (404u16, "Participant not found"@,
        "The Participant does not exist in this Room."@, "participant_not_found"@),
        RoomErrorKind::InvalidCharacter | RoomErrorKind::PreloadIncomplete => (400u16,
        "Invalid Character selection"@, "The Character selection or preload is invalid."@,
        "invalid_character"@),
        RoomErrorKind::AlreadySelected => (409u16, "Participant already selected"@,
        "The Participant is already selected."@, "already_selected"@),
        RoomErrorKind::Disconnected => (409u16, "Participant disconnected"@,
        "The Participant is disconnected."@, "participant_disconnected"@),
        RoomErrorKind::DeleteWhilePlaying => (409u16, "Room is playing"@,
        "The Room cannot be deleted while a Match is active."@, "delete_while_playing"@),
        RoomErrorKind::Persistence => (503u16, "Replay persistence unavailable"@,
        "The Room could not persist the Match start or replay."@, "persistence_failure"@),
        RoomErrorKind::Deleted | RoomErrorKind::Closed => (404u16, "Room not found"@,
        "The room does not exist."@, "room_not_found"@),
        RoomErrorKind::ControllerNotInteractive | RoomErrorKind::NotPlaying | RoomErrorKind::Playing
        | RoomErrorKind::Match | RoomErrorKind::RematchUnavailable | RoomErrorKind::Other => (409u16,
        "Room command rejected"@,
        "The Room command is not available."@, "room_command_rejected"@),
    }
}

/// The answer to a room's refusal.
pub fn room_error(e: RoomErrorKind) -> (res: ApiError)
    ensures
        error_fields(res) == spec_room_error(e),
{
    match e {
        RoomErrorKind::Busy => ApiError::new(503, "Room busy", "The room is temporarily busy.", "room_busy"),
        RoomErrorKind::RoomFull => ApiError::new(
            409,
            "Room full",
            "The room cannot accept another participant.",
            "room_full",
        ),
        RoomErrorKind::NotLobby => ApiError::new(
            409,
            "Room is not in the Lobby",
            "That command is unavailable in the current Room phase.",
            "not_lobby",
        ),
        RoomErrorKind::NotEnoughPlayers | RoomErrorKind::NotReady => ApiError::new(
            409,
            "Room is not ready",
            "The Room does not have an eligible ready roster.",
            "room_not_ready",
        ),
        RoomErrorKind::NotSelected => ApiError::new(
            409,
            "Participant is not selected",
            "The Participant is not selected for this Match.",
            "not_selected",
        ),
        RoomErrorKind::ParticipantNotFound => ApiError::new(
            404,
            "Participant not found",
            "The Participant does not exist in this Room.",
            "participant_not_found",
        ),
        RoomErrorKind::InvalidCharacter | RoomErrorKind::PreloadIncomplete => ApiError::new(
            400,
            "Invalid Character selection",
            "The Character selection or preload is invalid.",
            "invalid_character",
        ),
        RoomErrorKind::AlreadySelected => ApiError::new(
            409,
            "Participant already selected",
            "The Participant is already selected.",
            "already_selected",
        ),
        RoomErrorKind::Disconnected => ApiError::new(
            409,
            "Participant disconnected",
            "The Participant is disconnected.",
            "participant_disconnected",
        ),
        RoomErrorKind::DeleteWhilePlaying => ApiError::new(
            409,
            "Room is playing",
            "The Room cannot be deleted while a Match is active.",
            "delete_while_playing",
        ),
        RoomErrorKind::Persistence => ApiError::new(
            503,
            "Replay persistence unavailable",
            "The Room could not persist the Match start or replay.",
            "persistence_failure",
        ),
        RoomErrorKind::Deleted | RoomErrorKind::Closed => ApiError::new(
            404,
            "Room not found",
            "The room does not exist.",
            "room_not_found",
        ),
        RoomErrorKind::ControllerNotInteractive | RoomErrorKind::NotPlaying | RoomErrorKind::Playing
        | RoomErrorKind::Match | RoomErrorKind::RematchUnavailable | RoomErrorKind::Other => ApiError::new(
            409,
            "Room command rejected",
            "The Room command is not available.",
            "room_command_rejected",
        ),
    }
}

/// Why the room registry refused a request.
#[derive(Debug, Clone, Copy, PartialEq, Eq, Structural)]
pub enum RegistryErrorKind {
    NotFound,
    Full,
    CodeUnavailable,
    Room(RoomErrorKind),
}

/// The answer to the registry's refusal.
pub fn registry_error(e: RegistryErrorKind) -> (res: ApiError)
    ensures
        error_fields(res) == match e {
            RegistryErrorKind::NotFound => (404u16, "Room not found"@, "The room does not exist."@,
            "room_not_found"@),
            RegistryErrorKind::Full => (409u16, "Room capacity reached"@,
            "The server cannot create another room."@, "room_capacity_reached"@),
            RegistryErrorKind::CodeUnavailable => (503u16, "Room code unavailable"@,
            "The server could not allocate a room code."@, "room_code_unavailable"@),
            RegistryErrorKind::Room(r) => spec_room_error(r),
        },
{
    match e {
        RegistryErrorKind::NotFound => room_not_found(),
        RegistryErrorKind::Full => ApiError::new(
            409,
            "Room capacity reached",
            "The server cannot create another room.",
            "room_capacity_reached",
        ),
        RegistryErrorKind::CodeUnavailable => ApiError::new(
            503,
            "Room code unavailable",
            "The server could not allocate a room code.",
            "room_code_unavailable",
        ),
        RegistryErrorKind::Room(r) => room_error(r),
    }
}

/// A failure of the storage: the database, the migrations, the file
/// system, or one of the replay and audit checks.
#[derive(Debug, Clone, Copy, PartialEq, Eq, Structural)]
pub enum StorageError {
    Sqlx,
    Migration,
    Io,
    UnsafeReplayPath,
    InvalidAuditSummary,
    InvalidTokenRecord,
    ReplayMetadata,
    ReplayNotFound,
    ReplayUnavailable,
    ReplayTooLarge,
    ReplayCorrupt,
    ReplayCleanup,
    AuditPending,
}

impl StorageError {
    /// The message of the failure.
    pub fn message(self) -> (res: &'static str)
        ensures
            res@ == match self {
                StorageError::Sqlx => "database operation failed"@,
                StorageError::Migration => "database migration failed"@,
                StorageError::Io => "storage filesystem operation failed"@,
                StorageError::UnsafeReplayPath => "replay path is outside the replay root"@,
                StorageError::InvalidAuditSummary => "audit summary is not allowlisted"@,
                StorageError::InvalidTokenRecord => "database returned an invalid token record"@,
                StorageError::ReplayMetadata => "replay metadata operation failed"@,
                StorageError::ReplayNotFound => "replay was not found"@,
                StorageError::ReplayUnavailable => "replay is unavailable"@,
                StorageError::ReplayTooLarge => "replay is too large"@,
                StorageError::ReplayCorrupt => "replay is corrupt"@,
                StorageError::ReplayCleanup => "replay startup cleanup failed"@,
                StorageError::AuditPending => "Admin audit operation is not pending"@,
            },
    {
        match self {
            StorageError::Sqlx => "database operation failed",
            StorageError::Migration => "database migration failed",
            StorageError::Io => "storage filesystem operation failed",
            StorageError::UnsafeReplayPath => "replay path is outside the replay root",
            StorageError::InvalidAuditSummary => "audit summary is not allowlisted",
            StorageError::InvalidTokenRecord => "database returned an invalid token record",
            StorageError::ReplayMetadata => "replay metadata operation failed",
            StorageError::ReplayNotFound => "replay was not found",
            StorageError::ReplayUnavailable => "replay is unavailable",
            StorageError::ReplayTooLarge => "replay is too large",
            StorageError::ReplayCorrupt => "replay is corrupt",
            StorageError::ReplayCleanup => "replay startup cleanup failed",
            StorageError::AuditPending => "Admin audit operation is not pending",
        }
    }

    /// The kind under which a replay failure is recorded.
    pub fn replay_failure_kind(self) -> (res: &'static str)
        ensures
            res@ == match self {
                StorageError::ReplayTooLarge => "too_large"@,
                StorageError::ReplayCorrupt => "corrupt"@,
                StorageError::ReplayUnavailable => "unavailable"@,
                StorageError::UnsafeReplayPath => "unsafe_path"@,
                StorageError::ReplayNotFound => "not_found"@,
                StorageError::ReplayMetadata => "metadata"@,
                StorageError::Io => "filesystem"@,
                StorageError::Sqlx => "database"@,
                StorageError::Migration => "migration"@,
                _ => "storage"@,
            },
    {
        match self {
            StorageError::ReplayTooLarge => "too_large",
            StorageError::ReplayCorrupt => "corrupt",
            StorageError::ReplayUnavailable => "unavailable",
            StorageError::UnsafeReplayPath => "unsafe_path",
            StorageError::ReplayNotFound => "not_found",
            StorageError::ReplayMetadata => "metadata",
            StorageError::Io => "filesystem",
            StorageError::Sqlx => "database",
            StorageError::Migration => "migration",
            _ => "storage",
        }
    }
}

/// The answer to a failure to read or delete a replay.
pub fn replay_error(e: StorageError) -> (res: ApiError)
    ensures
        error_fields(res) == match e {
            StorageError::ReplayNotFound => (404u16, "Replay not found"@,
            "The requested Replay does not exist."@, "replay_not_found"@),
            StorageError::ReplayTooLarge => (413u16, "Replay too large"@,
            "The Replay timeline exceeds the maximum size."@, "replay_too_large"@),
            StorageError::ReplayUnavailable | StorageError::ReplayCorrupt
            | StorageError::UnsafeReplayPath => (422u16, "Replay unavailable"@,
            "The Replay cannot be viewed, but it remains available for deletion."@,
            "replay_unavailable"@),
            _ => (500u16, "Internal server error"@, "The server could not complete the request."@,
            "internal_error"@),
        },
{
    match e {
        StorageError::ReplayNotFound => ApiError::new(
            404,
            "Replay not found",
            "The requested Replay does not exist.",
            "replay_not_found",
        ),
        StorageError::ReplayTooLarge => ApiError::new(
            413,
            "Replay too large",
            "The Replay timeline exceeds the maximum size.",
            "replay_too_large",
        ),
        StorageError::ReplayUnavailable | StorageError::ReplayCorrupt
        | StorageError::UnsafeReplayPath => ApiError::new(
            422,
            "Replay unavailable",
            "The Replay cannot be viewed, but it remains available for deletion.",
            "replay_unavailable",
        ),
        _ => internal_error(),
    }
}

/// Whether a response to `path` with `status` and `content_type` is
/// replaced by a problem document: an API or socket path under `v1`, a
/// client error, and not already a problem document.
pub open spec fn spec_rewrites_to_problem(path: Seq<char>, status: u16, content_type: Option<Seq<char>>) -> bool {
    &&& (starts_with(path, "/api/v1/"@) || starts_with(path, "/ws/v1/"@))
    &&& 400 <= status < 500
    &&& !(content_type matches Some(t) && starts_with(t, "application/problem+json"@))
}

/// The problem document that replaces a bare client-error response to
/// `path`, if one does: `405` reads as a refused method, any other client
/// error as an invalid request.
pub fn problem_rewrite(path: &str, status: u16, content_type: Option<&str>) -> (res: Option<ApiError>)
    ensures
        spec_rewrites_to_problem(
            path@,
            status,
            match content_type {
                Some(t) => Some(t@),
                None => None,
            },
        ) ==> (res matches Some(e) && error_fields(e) == if status == 405 {
            (status, "Method not allowed"@, "The HTTP method is not allowed."@,
            "method_not_allowed"@)
        } else {
            (status, "Invalid request"@, "The request could not be processed."@, "invalid_request"@)
        }),
        !spec_rewrites_to_problem(
            path@,
            status,
            match content_type {
                Some(t) => Some(t@),
                None => None,
            },
        ) ==> res is None,
{
    let p = chars_of(path);
    let api = chars_of("/api/v1/");
    let ws = chars_of("/ws/v1/");
    if !(chars_start_with(p.as_slice(), api.as_slice()) || chars_start_with(
        p.as_slice(),
        ws.as_slice(),
    )) {
        return None;
    }
    if !(400 <= status && status < 500) {
        return None;
    }
    match content_type {
        Some(t) => {
            let tc = chars_of(t);
            let problem = chars_of("application/problem+json");
            if chars_start_with(tc.as_slice(), problem.as_slice()) {
                return None;
            }
        },
        None => {},
    }
    if status == 405 {
        Some(ApiError::new(status, "Method not allowed", "The HTTP method is not allowed.", "method_not_allowed"))
    } else {
        Some(ApiError::new(status, "Invalid request", "The request could not be processed.", "invalid_request"))
    }
}

/// The content security policy of the server's responses.
pub open spec fn spec_server_csp() -> Seq<char> {
    "default-src 'self'; script-src 'self'; style-src 'self'; img-src 'self'; media-src 'self'; connect-src 'self'; object-src 'none'; base-uri 'self'; frame-ancestors 'none'"@
}

/// The content security policy of the server's responses.
pub fn server_csp() -> (res: &'static str)
    ensures
        res@ == spec_server_csp(),
{
    "default-src 'self'; script-src 'self'; style-src 'self'; img-src 'self'; media-src 'self'; connect-src 'self'; object-src 'none'; base-uri 'self'; frame-ancestors 'none'"
}

/// The headers every response gets unless it sets them itself.
pub open spec fn spec_default_headers() -> Seq<(Seq<char>, Seq<char>)> {
    seq![
        ("x-content-type-options"@, "nosniff"@),
        ("referrer-policy"@, "no-referrer"@),
        ("x-frame-options"@, "DENY"@),
        ("permissions-policy"@, "camera=(), microphone=(), geolocation=()"@),
        ("content-security-policy"@, spec_server_csp()),
    ]
}

/// The headers every response gets unless it sets them itself.
pub fn default_headers() -> (res: Vec<(&'static str, &'static str)>)
    ensures
        res@.len() == spec_default_headers().len(),
        forall|i: int|
            0 <= i < res@.len() ==> (#[trigger] res@[i]).0@ == spec_default_headers()[i].0 && res@[i].1@
                == spec_default_headers()[i].1,
{
    let res = vec![
        ("x-content-type-options", "nosniff"),
        ("referrer-policy", "no-referrer"),
        ("x-frame-options", "DENY"),
        ("permissions-policy", "camera=(), microphone=(), geolocation=()"),
        ("content-security-policy", server_csp()),
    ];
    res
}

/// Whether a response to `path` must not be cached: API and socket paths.
pub fn needs_no_store(path: &str) -> (res: bool)
    ensures
        res == (starts_with(path@, "/api/"@) || starts_with(path@, "/ws/"@)),
{
    let p = chars_of(path);
    let api = chars_of("/api/");
    let ws = chars_of("/ws/");
    chars_start_with(p.as_slice(), api.as_slice()) || chars_start_with(p.as_slice(), ws.as_slice())
}

} // verus!
