//! Who may use the web interface: sessions, the limit on logins, and the
//! decision on each request.

use vstd::prelude::*;

use axum::http::HeaderMap;

use crate::config::{Config, Env};
use crate::string_map::StringMap;
use crate::text::{
    decimal, decimal_of, join3, opt_text, same_text, split, split_on, strip_prefix, stripped, texts,
    trim, trimmed, utf8_is_injective,
};
use crate::time::{utc_now, Timestamp, MAX_SECONDS};
use crate::ui::headers::{header, header_text};

verus! {

/// The header that a request which changes something has to carry, and its
/// value.
pub const CSRF_HEADER: &'static str = "x-requested-with";

pub const CSRF_VALUE: &'static str = "gh-release-notify";

/// How long a session lasts.
pub const SESSION_TTL_HOURS: i64 = 12;

const LOGIN_LIMIT_PER_MINUTE: u32 = 5;

/// The paths that need no authorization.
pub const PUBLIC_ROUTES: [&'static str; 5] = ["/", "/app.js", "/pico.css", "/login", "/healthz"];

/// Whether a path is one of those that need no authorization.
pub open spec fn is_public(path: Seq<char>) -> bool {
    exists|i: int| 0 <= i < 5 && (#[trigger] PUBLIC_ROUTES@[i])@ == path
}

/// Whether a path needs no authorization.
pub fn is_public_route(path: &str) -> (r: bool)
    ensures
        r == is_public(path@),
{
    let routes = PUBLIC_ROUTES;
    let mut i: usize = 0;
    while i < 5
        invariant
            i <= 5,
            routes == PUBLIC_ROUTES,
            forall|j: int| 0 <= j < i ==> (#[trigger] PUBLIC_ROUTES@[j])@ != path@,
        decreases 5 - i,
    {
        if same_text(routes[i], path) {
            assert(PUBLIC_ROUTES@[i as int]@ == path@);
            return true;
        }
        i = i + 1;
    }
    false
}

/// The hexadecimal digit for a number below sixteen.
pub open spec fn hex_char(d: nat) -> char {
    if d < 10 {
        (48 + d) as char
    } else {
        (87 + d) as char
    }
}

/// Bytes in hexadecimal, two lower-case digits each.
pub open spec fn hex_of(bytes: Seq<u8>) -> Seq<char>
    decreases bytes.len(),
{
    if bytes.len() == 0 {
        Seq::empty()
    } else {
        hex_of(bytes.drop_last()).push(hex_char(bytes.last() as nat / 16)).push(
            hex_char(bytes.last() as nat % 16),
        )
    }
}

fn hex_digit(d: u8) -> (r: &'static str)
    requires
        d < 16,
    ensures
        r@ == seq![hex_char(d as nat)],
{
    let digits = "0123456789abcdef";
    proof {
        reveal_strlit("0123456789abcdef");
    }
    let i: usize = d as usize;
    let r = digits.substring_char(i, i + 1);
    assert(digits@[i as int] == hex_char(d as nat)) by {
        assert(d == 0 || d == 1 || d == 2 || d == 3 || d == 4 || d == 5 || d == 6 || d == 7 || d
            == 8 || d == 9 || d == 10 || d == 11 || d == 12 || d == 13 || d == 14 || d == 15);
    }
    assert(r@ =~= seq![hex_char(d as nat)]);
    r
}

/// Writes bytes in hexadecimal.
pub fn hex(bytes: &Vec<u8>) -> (r: String)
    ensures
        r@ == hex_of(bytes@),
{
    let mut s = String::new();
    let mut i: usize = 0;
    assert(bytes@.take(0) =~= Seq::<u8>::empty());
    while i < bytes.len()
        invariant
            i <= bytes@.len(),
            s@ == hex_of(bytes@.take(i as int)),
        decreases bytes@.len() - i,
    {
        assert(bytes@.take(i + 1).drop_last() =~= bytes@.take(i as int));
        s.append(hex_digit(bytes[i] / 16));
        s.append(hex_digit(bytes[i] % 16));
        i = i + 1;
        assert(s@ =~= hex_of(bytes@.take(i as int)));
    }
    assert(bytes@.take(i as int) =~= bytes@);
    s
}

/// Random bytes from the system: `getrandom::fill` on a buffer of the given
/// length. Nothing comes back where the system has none to give. Which bytes
/// come back is left to chance, and nothing is said of it.
#[verifier::external_body]
pub(crate) fn random_bytes(len: usize) -> (r: Option<Vec<u8>>)
    requires
        len <= 4096,
    ensures
        r matches Some(bytes) ==> bytes@.len() == len,
{
    let mut bytes = vec![0u8; len];
    getrandom::fill(&mut bytes).ok().map(|_| bytes)
}

/// The sessions that last beyond a point in time.
pub open spec fn live(sessions: Map<Seq<char>, Timestamp>, now: Timestamp) -> Map<
    Seq<char>,
    Timestamp,
> {
    sessions.restrict(
        Set::new(|id: Seq<char>| sessions.contains_key(id) && sessions[id]@ > now@),
    )
}

/// Whether a session lasts beyond a point in time.
pub open spec fn is_live(sessions: Map<Seq<char>, Timestamp>, id: Seq<char>, now: Timestamp) -> bool {
    sessions.contains_key(id) && sessions[id]@ > now@
}

/// The sessions after one was looked up: it is gone where it has expired.
pub open spec fn looked_up(sessions: Map<Seq<char>, Timestamp>, id: Seq<char>, now: Timestamp) -> Map<
    Seq<char>,
    Timestamp,
> {
    if is_live(sessions, id, now) {
        sessions
    } else {
        sessions.remove(id)
    }
}

/// The sessions after one was made: those that have expired are gone, and the
/// new one lasts for its time.
pub open spec fn created(sessions: Map<Seq<char>, Timestamp>, id: Seq<char>, now: Timestamp) -> Map<
    Seq<char>,
    Timestamp,
> {
    live(sessions, now).insert(
        id,
        Timestamp { secs: (now.secs + SESSION_TTL_HOURS * 3600) as i64, nanos: now.nanos },
    )
}

/// Whether a session that starts at a point in time ends within the calendar's
/// range.
pub open spec fn session_has_end(now: Timestamp) -> bool {
    now.valid() && now.secs + SESSION_TTL_HOURS * 3600 <= MAX_SECONDS
}

/// Random bytes, where there are any.
pub open spec fn opt_bytes(entropy: Option<Vec<u8>>) -> Option<Seq<u8>> {
    match entropy {
        Some(bytes) => Some(bytes@),
        None => None,
    }
}

/// What making a session comes to: its name, which is empty where none is made,
/// and the sessions then. None is made without random bytes, or where it would
/// not end within the calendar's range.
pub open spec fn create_outcome(
    sessions: Map<Seq<char>, Timestamp>,
    entropy: Option<Seq<u8>>,
    now: Timestamp,
) -> (Seq<char>, Map<Seq<char>, Timestamp>) {
    match entropy {
        Some(bytes) => if session_has_end(now) {
            (hex_of(bytes), created(sessions, hex_of(bytes), now))
        } else {
            (Seq::empty(), sessions)
        },
        None => (Seq::empty(), sessions),
    }
}

/// The open sessions, each with the point in time at which it expires.
pub struct Sessions {
    map: StringMap<Timestamp>,
}

impl View for Sessions {
    type V = Map<Seq<char>, Timestamp>;

    closed spec fn view(&self) -> Map<Seq<char>, Timestamp> {
        self.map@
    }
}

impl Default for Sessions {
    fn default() -> (r: Sessions)
        ensures
            r@ == Map::<Seq<char>, Timestamp>::empty(),
    {
        Sessions { map: StringMap::new() }
    }
}

impl Sessions {
    #[verifier::type_invariant]
    spec fn well_formed(self) -> bool {
        forall|id: Seq<char>| #[trigger] self.map@.contains_key(id) ==> self.map@[id].valid()
    }

    /// Makes a session at a given point in time from random bytes, where there
    /// are any and the session has an end. Its name is the bytes in hexadecimal;
    /// it is empty where no session is made.
    pub fn create_at(&mut self, entropy: Option<Vec<u8>>, now: &Timestamp) -> (r: String)
        requires
            now.valid(),
        ensures
            (r@, final(self)@) == create_outcome(old(self)@, opt_bytes(entropy), *now),
    {
        if now.secs > MAX_SECONDS - SESSION_TTL_HOURS * 3600 {
            return String::new();
        }
        match entropy {
            Some(bytes) => {
                proof {
                    use_type_invariant(&*self);
                }
                let id = hex(&bytes);
                let mut map: StringMap<Timestamp> = StringMap::new();
                std::mem::swap(&mut map, &mut self.map);
                let at: Timestamp = *now;
                let keep = |expiry: &Timestamp| -> (b: bool)
                    requires
                        expiry.nanos < 1_000_000_000,
                    ensures
                        b == (expiry@ > at@),
                    {
                        expiry.secs > at.secs || (expiry.secs == at.secs && expiry.nanos
                            > at.nanos)
                    };
                map.retain(keep, Ghost(|expiry: Timestamp| expiry@ > at@));
                map.insert(id.as_str(), now.plus_seconds(SESSION_TTL_HOURS * 3600));
                self.map = map;
                id
            },
            None => String::new(),
        }
    }

    /// Makes a session now, by the system clock, from thirty-two of the system's
    /// random bytes, where it has any.
    pub fn create(&mut self) -> (r: String)
        ensures
            exists|entropy: Option<Seq<u8>>, now: Timestamp|
                {
                    &&& entropy is Some ==> entropy->0.len() == 32
                    &&& now.valid()
                    &&& (r@, final(self)@) == #[trigger] create_outcome(
                        old(self)@,
                        entropy,
                        now,
                    )
                },
    {
        let entropy = random_bytes(32);
        let now = utc_now();
        let ghost bytes = opt_bytes(entropy);
        let id = self.create_at(entropy, &now);
        assert((id@, self@) == create_outcome(old(self)@, bytes, now));
        id
    }

    /// Whether a session lasts beyond a given point in time. One that has
    /// expired is dropped.
    pub fn validate_at(&mut self, id: &str, now: &Timestamp) -> (r: bool)
        requires
            now.valid(),
        ensures
            r == is_live(old(self)@, id@, *now),
            final(self)@ == looked_up(old(self)@, id@, *now),
    {
        proof {
            use_type_invariant(&*self);
        }
        let alive = match self.map.get(id) {
            Some(expiry) => expiry.is_after(now),
            None => false,
        };
        if !alive {
            self.destroy(id);
        }
        alive
    }

    /// Whether a session lasts beyond now, by the system clock. One that has
    /// expired is dropped.
    pub fn validate(&mut self, id: &str) -> (r: bool)
        ensures
            exists|now: Timestamp|
                {
                    &&& now.valid()
                    &&& r == is_live(old(self)@, id@, now)
                    &&& final(self)@ == #[trigger] looked_up(old(self)@, id@, now)
                },
    {
        let now = utc_now();
        let r = self.validate_at(id, &now);
        assert(self@ == looked_up(old(self)@, id@, now));
        r
    }

    /// Ends a session.
    pub fn destroy(&mut self, id: &str)
        ensures
            final(self)@ == old(self)@.remove(id@),
    {
        proof {
            use_type_invariant(&*self);
        }
        let mut map: StringMap<Timestamp> = StringMap::new();
        std::mem::swap(&mut map, &mut self.map);
        map.remove(id);
        self.map = map;
    }
}

/// The attempts to log in from an address: how many, and since when.
pub open spec fn attempts_of(
    attempts: Map<Seq<char>, (u32, Timestamp)>,
    ip: Seq<char>,
    now: Timestamp,
) -> (u32, Timestamp) {
    if attempts.contains_key(ip) {
        attempts[ip]
    } else {
        (0, now)
    }
}

/// What is noted of an address after one more attempt: more than a minute after
/// the first one counted, the count starts anew.
pub open spec fn noted(
    attempts: Map<Seq<char>, (u32, Timestamp)>,
    ip: Seq<char>,
    now: Timestamp,
) -> (u32, Timestamp) {
    let (count, since) = attempts_of(attempts, ip, now);
    if now@ - since@ > 60 * 1_000_000_000 {
        (1, now)
    } else if count < u32::MAX {
        ((count + 1) as u32, since)
    } else {
        (count, since)
    }
}

/// Limits the attempts to log in from an address to five in a minute.
pub struct LoginLimiter {
    attempts: StringMap<(u32, Timestamp)>,
}

impl View for LoginLimiter {
    type V = Map<Seq<char>, (u32, Timestamp)>;

    closed spec fn view(&self) -> Map<Seq<char>, (u32, Timestamp)> {
        self.attempts@
    }
}

impl Default for LoginLimiter {
    fn default() -> (r: LoginLimiter)
        ensures
            r@ == Map::<Seq<char>, (u32, Timestamp)>::empty(),
    {
        LoginLimiter { attempts: StringMap::new() }
    }
}

impl LoginLimiter {
    #[verifier::type_invariant]
    spec fn well_formed(self) -> bool {
        forall|ip: Seq<char>| #[trigger]
            self.attempts@.contains_key(ip) ==> self.attempts@[ip].1.valid()
    }

    /// Notes an attempt at a given point in time, and tells whether it is
    /// allowed.
    pub fn allow_at(&mut self, ip: &str, now: &Timestamp) -> (r: bool)
        requires
            now.valid(),
        ensures
            r == (noted(old(self)@, ip@, *now).0 <= 5),
            final(self)@ == old(self)@.insert(ip@, noted(old(self)@, ip@, *now)),
    {
        proof {
            use_type_invariant(&*self);
        }
        let entry: (u32, Timestamp) = match self.attempts.get(ip) {
            Some(e) => *e,
            None => (0, *now),
        };
        let noted: (u32, Timestamp) = if now.is_past(&entry.1, 60) {
            (1, *now)
        } else if entry.0 < u32::MAX {
            (entry.0 + 1, entry.1)
        } else {
            entry
        };
        let mut attempts: StringMap<(u32, Timestamp)> = StringMap::new();
        std::mem::swap(&mut attempts, &mut self.attempts);
        attempts.insert(ip, noted);
        self.attempts = attempts;
        noted.0 <= LOGIN_LIMIT_PER_MINUTE
    }

    /// Notes an attempt now, by the system clock, and tells whether it is
    /// allowed.
    pub fn allow(&mut self, ip: &str) -> (r: bool)
        ensures
            exists|now: Timestamp|
                {
                    &&& now.valid()
                    &&& r == (#[trigger] noted(old(self)@, ip@, now).0 <= 5)
                    &&& final(self)@ == old(self)@.insert(ip@, noted(old(self)@, ip@, now))
                },
    {
        let now = utc_now();
        let r = self.allow_at(ip, &now);
        assert(self@ == old(self)@.insert(ip@, noted(old(self)@, ip@, now)));
        r
    }

    /// Forgets the attempts from an address.
    pub fn reset(&mut self, ip: &str)
        ensures
            final(self)@ == old(self)@.remove(ip@),
    {
        proof {
            use_type_invariant(&*self);
        }
        let mut attempts: StringMap<(u32, Timestamp)> = StringMap::new();
        std::mem::swap(&mut attempts, &mut self.attempts);
        attempts.remove(ip);
        self.attempts = attempts;
    }
}

/// Compares bytes in a time that depends on their number alone:
/// `subtle::ConstantTimeEq::ct_eq` for slices. It is true exactly where the
/// bytes are equal; the time it takes is not part of the contract.
#[verifier::external_body]
fn bytes_ct_eq(a: &[u8], b: &[u8]) -> (r: bool)
    ensures
        r == (a@ == b@),
{
    subtle::ConstantTimeEq::ct_eq(a, b).into()
}

/// Compares two texts in a time that depends on their length alone.
pub fn constant_time_eq(a: &str, b: &str) -> (r: bool)
    ensures
        r == (a@ == b@),
{
    let r = bytes_ct_eq(a.as_bytes(), b.as_bytes());
    proof {
        if r {
            utf8_is_injective(a@, b@);
        }
    }
    r
}

/// The session named in the first part of a cookie list that names one.
pub open spec fn first_session(parts: Seq<Seq<char>>) -> Option<Seq<char>>
    decreases parts.len(),
{
    if parts.len() == 0 {
        None
    } else if stripped(trimmed(parts[0]), "grn_session="@) is Some {
        stripped(trimmed(parts[0]), "grn_session="@)
    } else {
        first_session(parts.drop_first())
    }
}

/// The session that a request names in its cookies.
pub open spec fn session_cookie(headers: HeaderMap) -> Option<Seq<char>> {
    match header(headers, "cookie"@) {
        Some(raw) => first_session(split_on(raw, ';')),
        None => None,
    }
}

/// Finds the session in a cookie list.
pub fn session_in(raw: &str) -> (r: Option<String>)
    ensures
        opt_text(r) == first_session(split_on(raw@, ';')),
{
    let parts = split(raw, ';');
    let ghost all = texts(parts@);
    let mut i: usize = 0;
    assert(all.skip(0) =~= all);
    while i < parts.len()
        invariant
            i <= parts@.len(),
            all == texts(parts@),
            all == split_on(raw@, ';'),
            first_session(all) == first_session(all.skip(i as int)),
        decreases parts@.len() - i,
    {
        assert(all.skip(i as int)[0] == parts@[i as int]@);
        assert(all.skip(i as int).drop_first() =~= all.skip(i + 1));
        if let Some(id) = strip_prefix(trim(parts[i].as_str()), "grn_session=") {
            return Some(id.to_string());
        }
        i = i + 1;
    }
    None
}

/// The session that a request names in its cookies.
pub fn session_cookie_from_headers(headers: &HeaderMap) -> (r: Option<String>)
    ensures
        opt_text(r) == session_cookie(*headers),
{
    proof {
        reveal_strlit("cookie");
    }
    match header_text(headers, "cookie") {
        Some(raw) => session_in(raw.as_str()),
        None => None,
    }
}

/// Whether a request came to the proxy in front of the daemon over HTTPS.
pub fn is_https(headers: &HeaderMap) -> (r: bool)
    ensures
        r == (header(*headers, "x-forwarded-proto"@) == Some("https"@)),
{
    proof {
        reveal_strlit("x-forwarded-proto");
    }
    match header_text(headers, "x-forwarded-proto") {
        Some(proto) => same_text(proto.as_str(), "https"),
        None => false,
    }
}

/// The cookie that names a session.
pub open spec fn session_cookie_text(session: Seq<char>, secure: bool) -> Seq<char> {
    let plain = "grn_session="@ + session + "; HttpOnly; SameSite=Strict; Path=/; Max-Age="@
        + decimal_of(43200);
    if secure {
        plain + "; Secure"@
    } else {
        plain
    }
}

/// Writes the cookie that names a session, for HTTPS only where that is asked.
pub fn cookie_header(session: &str, secure: bool) -> (r: String)
    ensures
        r@ == session_cookie_text(session@, secure),
{
    let mut c = join3("grn_session=", session, "; HttpOnly; SameSite=Strict; Path=/; Max-Age=");
    c.append(decimal((SESSION_TTL_HOURS * 3600) as u64).as_str());
    if secure {
        c.append("; Secure");
    }
    c
}

/// Writes the cookie that takes a session's name back.
pub fn clear_cookie_header() -> (r: String)
    ensures
        r@ == "grn_session=; HttpOnly; SameSite=Strict; Path=/; Max-Age=0"@,
{
    "grn_session=; HttpOnly; SameSite=Strict; Path=/; Max-Age=0".to_string()
}

/// What becomes of a request.
#[derive(Clone, Copy, Debug, PartialEq, Eq, Structural)]
pub enum AuthDecision {
    /// It goes on to its handler.
    Pass,
    /// It is refused for want of credentials.
    Unauthorized,
    /// It is refused for want of the header that changes need.
    MissingHeader,
}

impl AuthDecision {
    /// The status of the answer to a refused request.
    pub fn status(&self) -> (r: Option<u16>)
        ensures
            r == (match *self {
                AuthDecision::Pass => None::<u16>,
                AuthDecision::Unauthorized => Some(401u16),
                AuthDecision::MissingHeader => Some(400u16),
            }),
    {
        match self {
            AuthDecision::Pass => None,
            AuthDecision::Unauthorized => Some(401),
            AuthDecision::MissingHeader => Some(400),
        }
    }

    /// What the answer to a refused request says.
    pub fn message(&self) -> (r: &'static str)
        ensures
            r@ == (match *self {
                AuthDecision::Pass => ""@,
                AuthDecision::Unauthorized => "unauthorized"@,
                AuthDecision::MissingHeader => "missing X-Requested-With header"@,
            }),
    {
        match self {
            AuthDecision::Pass => "",
            AuthDecision::Unauthorized => "unauthorized",
            AuthDecision::MissingHeader => "missing X-Requested-With header",
        }
    }

    /// The body of the answer to a refused request: a JSON object with what the
    /// answer says.
    pub fn body(&self) -> (r: &'static str)
        ensures
            r@ == (match *self {
                AuthDecision::Pass => ""@,
                AuthDecision::Unauthorized => "{\"error\":\"unauthorized\"}"@,
                AuthDecision::MissingHeader =>
                    "{\"error\":\"missing X-Requested-With header\"}"@,
            }),
    {
        match self {
            AuthDecision::Pass => "",
            AuthDecision::Unauthorized => "{\"error\":\"unauthorized\"}",
            AuthDecision::MissingHeader => "{\"error\":\"missing X-Requested-With header\"}",
        }
    }
}

/// A request, as far as the decision on it needs it.
pub struct AuthRequest<'a> {
    pub path: &'a str,
    pub is_get: bool,
    pub headers: &'a HeaderMap,
}

/// Whether the proxy in front of the daemon names a user.
pub open spec fn names_user(headers: HeaderMap) -> bool {
    match header(headers, "remote-user"@) {
        Some(user) => user.len() > 0,
        None => false,
    }
}

/// Whether a request presents a token.
pub open spec fn presents(headers: HeaderMap, token: Seq<char>) -> bool {
    match header(headers, "authorization"@) {
        Some(value) => stripped(value, "Bearer "@) == Some(token),
        None => false,
    }
}

/// Whether a request names an open session.
pub open spec fn names_session(
    headers: HeaderMap,
    sessions: Map<Seq<char>, Timestamp>,
    now: Timestamp,
) -> bool {
    match session_cookie(headers) {
        Some(id) => is_live(sessions, id, now),
        None => false,
    }
}

/// Whether a request is authorized: by the user that a trusted proxy names, or
/// by a session or the token, or without asking where there is no token.
pub open spec fn is_authorized(
    headers: HeaderMap,
    cfg: Config,
    env: Env,
    sessions: Map<Seq<char>, Timestamp>,
    now: Timestamp,
) -> bool {
    let token = cfg.resolved_admin_token(env);
    if cfg.ui.trust_proxy_auth {
        names_user(headers)
    } else if token.len() > 0 {
        names_session(headers, sessions, now) || presents(headers, token)
    } else {
        true
    }
}

/// Whether a request carries the header that changes need.
pub open spec fn carries_csrf_header(headers: HeaderMap) -> bool {
    header(headers, CSRF_HEADER@) == Some(CSRF_VALUE@)
}

/// What becomes of a request.
pub open spec fn decision(
    path: Seq<char>,
    is_get: bool,
    headers: HeaderMap,
    cfg: Config,
    env: Env,
    sessions: Map<Seq<char>, Timestamp>,
    now: Timestamp,
) -> AuthDecision {
    if is_public(path) {
        AuthDecision::Pass
    } else if !is_authorized(headers, cfg, env, sessions, now) {
        AuthDecision::Unauthorized
    } else if !is_get && !carries_csrf_header(headers) {
        AuthDecision::MissingHeader
    } else {
        AuthDecision::Pass
    }
}

/// The sessions after a request: one that it names is dropped where it has
/// expired.
pub open spec fn sessions_after(
    path: Seq<char>,
    headers: HeaderMap,
    cfg: Config,
    env: Env,
    sessions: Map<Seq<char>, Timestamp>,
    now: Timestamp,
) -> Map<Seq<char>, Timestamp> {
    if is_public(path) || cfg.ui.trust_proxy_auth || cfg.resolved_admin_token(env).len() == 0 {
        sessions
    } else {
        match session_cookie(headers) {
            Some(id) => looked_up(sessions, id, now),
            None => sessions,
        }
    }
}

fn proxy_user(headers: &HeaderMap) -> (r: bool)
    ensures
        r == names_user(*headers),
{
    proof {
        reveal_strlit("remote-user");
    }
    match header_text(headers, "remote-user") {
        Some(user) => !user.as_str().is_empty(),
        None => false,
    }
}

fn bearer_is(headers: &HeaderMap, token: &str) -> (r: bool)
    ensures
        r == presents(*headers, token@),
{
    proof {
        reveal_strlit("authorization");
    }
    match header_text(headers, "authorization") {
        Some(value) => match strip_prefix(value.as_str(), "Bearer ") {
            Some(presented) => constant_time_eq(presented, token),
            None => false,
        },
        None => false,
    }
}

fn csrf_header(headers: &HeaderMap) -> (r: bool)
    ensures
        r == carries_csrf_header(*headers),
{
    proof {
        reveal_strlit("x-requested-with");
    }
    match header_text(headers, CSRF_HEADER) {
        Some(value) => same_text(value.as_str(), CSRF_VALUE),
        None => false,
    }
}

/// Decides on a request at a given point in time.
pub fn require_auth_at(
    req: &AuthRequest<'_>,
    cfg: &Config,
    env: &Env,
    sessions: &mut Sessions,
    now: &Timestamp,
) -> (r: AuthDecision)
    requires
        now.valid(),
    ensures
        r == decision(req.path@, req.is_get, *req.headers, *cfg, *env, old(sessions)@, *now),
        !is_public(req.path@) && is_authorized(*req.headers, *cfg, *env, old(sessions)@, *now) ==> r
            == if req.is_get || header(*req.headers, "x-requested-with"@) == Some(
            "gh-release-notify"@,
        ) {
            AuthDecision::Pass
        } else {
            AuthDecision::MissingHeader
        },
        final(sessions)@ == sessions_after(
            req.path@,
            *req.headers,
            *cfg,
            *env,
            old(sessions)@,
            *now,
        ),
{
    if is_public_route(req.path) {
        return AuthDecision::Pass;
    }
    let token = cfg.admin_token(env);
    let authorized = if cfg.ui.trust_proxy_auth {
        proxy_user(req.headers)
    } else if !token.as_str().is_empty() {
        let via_cookie = match session_cookie_from_headers(req.headers) {
            Some(id) => sessions.validate_at(id.as_str(), now),
            None => false,
        };
        let via_bearer = bearer_is(req.headers, token.as_str());
        via_cookie || via_bearer
    } else {
        true
    };
    if !authorized {
        return AuthDecision::Unauthorized;
    }
    if !req.is_get && !csrf_header(req.headers) {
        return AuthDecision::MissingHeader;
    }
    AuthDecision::Pass
}

/// Decides on a request now, by the system clock.
pub fn require_auth(
    req: &AuthRequest<'_>,
    cfg: &Config,
    env: &Env,
    sessions: &mut Sessions,
) -> (r: AuthDecision)
    ensures
        exists|now: Timestamp|
            {
                &&& now.valid()
                &&& r == #[trigger] decision(
                    req.path@,
                    req.is_get,
                    *req.headers,
                    *cfg,
                    *env,
                    old(sessions)@,
                    now,
                )
                &&& final(sessions)@ == sessions_after(
                    req.path@,
                    *req.headers,
                    *cfg,
                    *env,
                    old(sessions)@,
                    now,
                )
            },
{
    let now = utc_now();
    let r = require_auth_at(req, cfg, env, sessions, &now);
    assert(r == decision(
        req.path@,
        req.is_get,
        *req.headers,
        *cfg,
        *env,
        old(sessions)@,
        now,
    ));
    r
}

} // verus!
