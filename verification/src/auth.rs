//! Bearer-token authentication for the HTTP server.
//!
//! A configuration is a comma-separated list of `scope:token` entries. It is
//! kept out of logs and error messages: an error names the defect and never
//! the value, and the only rendering of a configuration says how many
//! credentials it holds.

use vstd::prelude::*;
use vstd::utf8::encode_utf8_decode_utf8;

use crate::text::{
    ascii_space_char, chars_of, copy, dec, decimal, is_ascii_space, lowered, same,
    same_ignoring_case, split, split_once, split_text, split_text_once, strip_prefix, text_after,
    texts, trim, trimmed, opt_view,
};

verus! {

/// Environment variable holding `scope:token` credentials.
pub const AUTH_ENV: &'static str = "TRAZA_TOKENS";

/// JSON body returned with 401 responses.
pub const UNAUTHORIZED_BODY: &'static str = "{\"error\":\"unauthorized\"}";

/// JSON body returned with 403 responses.
pub const FORBIDDEN_BODY: &'static str = "{\"error\":\"forbidden\"}";

/// Challenge scheme advertised on 401 responses.
pub const WWW_AUTHENTICATE: &'static str = "Bearer";

/// What a credential may do: read-only (GET), read-write (GET + POST), or
/// admin (read-write plus the destructive operations).
#[derive(Clone, Copy, Debug, PartialEq, Eq, Structural)]
pub enum Scope {
    /// GET only.
    ReadOnly,
    /// GET and POST.
    ReadWrite,
    /// Everything `rw` permits, plus erasure.
    Admin,
}

/// Whether a method has the given name, up to ASCII case.
pub open spec fn is_method(method: Seq<char>, name: Seq<char>) -> bool {
    lowered(method) == lowered(name)
}

/// The scope that a configuration names.
pub open spec fn scope_named(value: Seq<char>) -> Option<Scope> {
    if value == "ro"@ {
        Some(Scope::ReadOnly)
    } else if value == "rw"@ {
        Some(Scope::ReadWrite)
    } else if value == "admin"@ {
        Some(Scope::Admin)
    } else {
        None
    }
}

impl Scope {
    pub open spec fn spec_permits(self, method: Seq<char>) -> bool {
        is_method(method, "GET"@) || (self != Scope::ReadOnly && is_method(method, "POST"@))
    }

    fn parse(value: &str) -> (r: Option<Self>)
        ensures
            r == scope_named(value@),
    {
        if same(value, "ro") {
            Some(Scope::ReadOnly)
        } else if same(value, "rw") {
            Some(Scope::ReadWrite)
        } else if same(value, "admin") {
            Some(Scope::Admin)
        } else {
            None
        }
    }

    /// Whether this scope allows the given HTTP method.
    pub fn permits(self, method: &str) -> (r: bool)
        ensures
            r == self.spec_permits(method@),
    {
        match self {
            Scope::ReadOnly => same_ignoring_case(method, "GET"),
            Scope::ReadWrite | Scope::Admin => same_ignoring_case(method, "GET")
                || same_ignoring_case(method, "POST"),
        }
    }

    /// Whether this scope may erase data. The method rule cannot express
    /// this: erasure is a POST like any ingest.
    pub fn permits_erasure(self) -> (r: bool)
        ensures
            r == (self == Scope::Admin),
    {
        match self {
            Scope::Admin => true,
            _ => false,
        }
    }
}

/// What is wrong with a configuration.
#[derive(Clone, Copy, Debug, PartialEq, Eq, Structural)]
pub enum ConfigDefect {
    Empty,
    InvalidEntry,
    MissingSeparator,
    InvalidScope,
    EmptyToken,
    InvalidToken,
    DuplicateToken,
}

/// A TRAZA_TOKENS value that could not be parsed.
#[derive(Clone, Copy, Debug, PartialEq, Eq, Structural)]
pub struct ConfigError {
    pub defect: ConfigDefect,
}

pub open spec fn defect_message(defect: ConfigDefect) -> Seq<char> {
    match defect {
        ConfigDefect::Empty => "TRAZA_TOKENS must not be empty"@,
        ConfigDefect::InvalidEntry => "TRAZA_TOKENS contains an invalid entry"@,
        ConfigDefect::MissingSeparator => "TRAZA_TOKENS entries must use scope:token"@,
        ConfigDefect::InvalidScope => "TRAZA_TOKENS contains an invalid scope"@,
        ConfigDefect::EmptyToken => "TRAZA_TOKENS contains an empty token"@,
        ConfigDefect::InvalidToken => "TRAZA_TOKENS contains an invalid token"@,
        ConfigDefect::DuplicateToken => "TRAZA_TOKENS contains a duplicate token"@,
    }
}

impl ConfigError {
    fn new(defect: ConfigDefect) -> (r: Self)
        ensures
            r.defect == defect,
    {
        ConfigError { defect }
    }

    /// The defect in words; never the offending value.
    pub fn to_string(&self) -> (r: String)
        ensures
            r@ == defect_message(self.defect),
    {
        copy(
            match self.defect {
                ConfigDefect::Empty => "TRAZA_TOKENS must not be empty",
                ConfigDefect::InvalidEntry => "TRAZA_TOKENS contains an invalid entry",
                ConfigDefect::MissingSeparator => "TRAZA_TOKENS entries must use scope:token",
                ConfigDefect::InvalidScope => "TRAZA_TOKENS contains an invalid scope",
                ConfigDefect::EmptyToken => "TRAZA_TOKENS contains an empty token",
                ConfigDefect::InvalidToken => "TRAZA_TOKENS contains an invalid token",
                ConfigDefect::DuplicateToken => "TRAZA_TOKENS contains a duplicate token",
            },
        )
    }
}

/// Why a request was refused: unknown token (401) or insufficient scope (403).
#[derive(Clone, Copy, Debug, PartialEq, Eq, Structural)]
pub enum AuthFailure {
    /// No, malformed, or unknown bearer token (HTTP 401).
    Unauthorized,
    /// Valid token without the scope for this method (HTTP 403).
    Forbidden,
}

impl AuthFailure {
    pub open spec fn spec_status(self) -> u16 {
        match self {
            AuthFailure::Unauthorized => 401,
            AuthFailure::Forbidden => 403,
        }
    }

    pub open spec fn spec_body(self) -> Seq<char> {
        match self {
            AuthFailure::Unauthorized => UNAUTHORIZED_BODY@,
            AuthFailure::Forbidden => FORBIDDEN_BODY@,
        }
    }

    pub open spec fn spec_challenge(self) -> Option<Seq<char>> {
        match self {
            AuthFailure::Unauthorized => Some(WWW_AUTHENTICATE@),
            AuthFailure::Forbidden => None,
        }
    }

    /// The HTTP status for this failure (401 or 403).
    pub fn status(self) -> (r: u16)
        ensures
            r == self.spec_status(),
    {
        match self {
            AuthFailure::Unauthorized => 401,
            AuthFailure::Forbidden => 403,
        }
    }

    /// The JSON error body for this failure.
    pub fn body(self) -> (r: &'static str)
        ensures
            r@ == self.spec_body(),
    {
        match self {
            AuthFailure::Unauthorized => UNAUTHORIZED_BODY,
            AuthFailure::Forbidden => FORBIDDEN_BODY,
        }
    }

    /// The WWW-Authenticate challenge, present on 401.
    pub fn www_authenticate(self) -> (r: Option<&'static str>)
        ensures
            r.is_some() == self.spec_challenge().is_some(),
            r.is_some() ==> r.unwrap()@ == self.spec_challenge().unwrap(),
    {
        match self {
            AuthFailure::Unauthorized => Some(WWW_AUTHENTICATE),
            AuthFailure::Forbidden => None,
        }
    }
}

// -------------------------------------------------------------- configuration

/// A credential: its token and what it may do.
pub struct CredentialView {
    pub token: Seq<char>,
    pub scope: Scope,
}

pub open spec fn holds_token(credentials: Seq<CredentialView>, token: Seq<char>) -> bool {
    exists|i: int| 0 <= i < credentials.len() && (#[trigger] credentials[i]).token == token
}

/// Whether a token holds a character that no token may hold.
pub open spec fn has_forbidden(token: Seq<char>) -> bool {
    exists|i: int| 0 <= i < token.len() && (is_ascii_space(#[trigger] token[i]) || token[i] == ',')
}

/// What is wrong with an entry, given the credentials before it.
pub open spec fn entry_defect(entry: Seq<char>, before: Seq<CredentialView>) -> Option<
    ConfigDefect,
> {
    if entry.len() == 0 || trimmed(entry) != entry {
        Some(ConfigDefect::InvalidEntry)
    } else {
        match split_once(entry, ':') {
            None => Some(ConfigDefect::MissingSeparator),
            Some((scope, token)) => if scope_named(scope).is_none() {
                Some(ConfigDefect::InvalidScope)
            } else if token.len() == 0 {
                Some(ConfigDefect::EmptyToken)
            } else if has_forbidden(token) {
                Some(ConfigDefect::InvalidToken)
            } else if holds_token(before, token) {
                Some(ConfigDefect::DuplicateToken)
            } else {
                None
            },
        }
    }
}

/// The credential of an entry without a defect.
pub open spec fn entry_credential(entry: Seq<char>) -> CredentialView {
    let (scope, token) = split_once(entry, ':').unwrap();
    CredentialView { token, scope: scope_named(scope).unwrap() }
}

/// The credentials of all entries, or the first defect.
pub open spec fn read_entries(entries: Seq<Seq<char>>, before: Seq<CredentialView>) -> Result<
    Seq<CredentialView>,
    ConfigDefect,
>
    decreases entries.len(),
{
    if entries.len() == 0 {
        Ok(before)
    } else {
        match entry_defect(entries[0], before) {
            Some(defect) => Err(defect),
            None => read_entries(entries.skip(1), before.push(entry_credential(entries[0]))),
        }
    }
}

/// What a TRAZA_TOKENS value configures.
pub open spec fn configured(raw: Seq<char>) -> Result<Seq<CredentialView>, ConfigDefect> {
    if raw.len() == 0 {
        Err(ConfigDefect::Empty)
    } else {
        read_entries(split(raw, ','), seq![])
    }
}

/// No token is configured twice, and each is a token.
pub open spec fn well_configured(credentials: Seq<CredentialView>) -> bool {
    &&& forall|i: int, j: int|
        #![trigger credentials[i], credentials[j]]
        0 <= i < j < credentials.len() ==> credentials[i].token != credentials[j].token
    &&& forall|i: int|
        0 <= i < credentials.len() ==> (#[trigger] credentials[i]).token.len() > 0
            && !has_forbidden(credentials[i].token)
}

proof fn lemma_read_entries(entries: Seq<Seq<char>>, before: Seq<CredentialView>)
    requires
        well_configured(before),
    ensures
        read_entries(entries, before) matches Ok(c) ==> well_configured(c),
    decreases entries.len(),
{
    if entries.len() > 0 && entry_defect(entries[0], before).is_none() {
        let more = before.push(entry_credential(entries[0]));
        assert(well_configured(more)) by {
            assert forall|i: int, j: int|
                #![trigger more[i], more[j]]
                0 <= i < j < more.len() implies more[i].token != more[j].token by {
                assert(more[i] == before[i]);
                if j < before.len() {
                    assert(more[j] == before[j]);
                }
            }
        }
        lemma_read_entries(entries.skip(1), more);
    }
}

struct Credential {
    token: String,
    scope: Scope,
}

/// The parsed credential set; comparison is constant-time per token.
pub struct AuthConfig {
    credentials: Vec<Credential>,
}

impl Credential {
    spec fn cview(&self) -> CredentialView {
        CredentialView { token: self.token@, scope: self.scope }
    }
}

spec fn views(credentials: Seq<Credential>) -> Seq<CredentialView> {
    Seq::new(credentials.len(), |i: int| credentials[i].cview())
}

/// The scope of a token: that of the last credential that holds it.
pub open spec fn scope_of(credentials: Seq<CredentialView>, token: Seq<char>) -> Option<Scope>
    decreases credentials.len(),
{
    if credentials.len() == 0 {
        None
    } else if credentials.last().token == token {
        Some(credentials.last().scope)
    } else {
        scope_of(credentials.drop_last(), token)
    }
}

/// The token of an `Authorization` header: what follows `Bearer `, where that
/// is a single nonempty token.
pub open spec fn bearer(header: Seq<char>) -> Option<Seq<char>> {
    match strip_prefix(header, "Bearer "@) {
        Some(token) => if token.len() == 0 || has_forbidden(token) {
            None
        } else {
            Some(token)
        },
        None => None,
    }
}

/// Who a request comes from.
pub open spec fn authenticated(
    credentials: Seq<CredentialView>,
    authorization: Option<Seq<char>>,
) -> Result<Scope, AuthFailure> {
    match authorization {
        None => Err(AuthFailure::Unauthorized),
        Some(header) => match bearer(header) {
            None => Err(AuthFailure::Unauthorized),
            Some(token) => match scope_of(credentials, token) {
                None => Err(AuthFailure::Unauthorized),
                Some(scope) => Ok(scope),
            },
        },
    }
}

pub open spec fn header_view(header: Option<&str>) -> Option<Seq<char>> {
    match header {
        Some(h) => Some(h@),
        None => None,
    }
}

fn forbidden_char(text: &str) -> (r: bool)
    ensures
        r == has_forbidden(text@),
{
    let chars = chars_of(text);
    let mut i: usize = 0;
    while i < chars.len()
        invariant
            i <= chars@.len(),
            chars@ == text@,
            forall|k: int|
                0 <= k < i ==> !is_ascii_space(#[trigger] text@[k]) && text@[k] != ',',
        decreases chars@.len() - i,
    {
        if ascii_space_char(chars[i]) || chars[i] == ',' {
            assert(is_ascii_space(text@[i as int]) || text@[i as int] == ',');
            return true;
        }
        i += 1;
    }
    false
}

fn parse_bearer(header: &str) -> (r: Option<String>)
    ensures
        opt_view(r) == bearer(header@),
{
    match text_after(header, "Bearer ") {
        None => None,
        Some(token) => if token.as_str().is_empty() || forbidden_char(token.as_str()) {
            None
        } else {
            Some(token)
        },
    }
}

/// Compares all bytes without returning early, including for unequal lengths.
pub fn constant_time_eq(left: &[u8], right: &[u8]) -> (r: bool)
    ensures
        r == (left@ == right@),
{
    let max_len: usize = if left.len() < right.len() {
        right.len()
    } else {
        left.len()
    };
    let a: usize = left.len();
    let b: usize = right.len();
    let mut difference: usize = a ^ b;
    assert((a ^ b == 0) == (a == b)) by (bit_vector);
    let mut index: usize = 0;
    while index < max_len
        invariant
            index <= max_len,
            left@.len() <= max_len,
            right@.len() <= max_len,
            a == left@.len(),
            b == right@.len(),
            (difference == 0) == (a == b && forall|k: int|
                0 <= k < index && k < left@.len() && k < right@.len() ==> left@[k] == right@[k]),
        decreases max_len - index,
    {
        let left_byte: u8 = if index < left.len() {
            left[index]
        } else {
            0
        };
        let right_byte: u8 = if index < right.len() {
            right[index]
        } else {
            0
        };
        let byte: usize = (left_byte ^ right_byte) as usize;
        assert((left_byte ^ right_byte == 0) == (left_byte == right_byte)) by (bit_vector);
        let ghost before = difference;
        assert((before | byte == 0) == (before == 0 && byte == 0)) by (bit_vector);
        difference = difference | byte;
        index += 1;
    }
    proof {
        if difference == 0 {
            assert(left@ =~= right@);
        }
    }
    difference == 0
}

fn same_token(a: &str, b: &str) -> (r: bool)
    ensures
        r == (a@ == b@),
{
    proof {
        encode_utf8_decode_utf8(a@);
        encode_utf8_decode_utf8(b@);
    }
    constant_time_eq(a.as_bytes(), b.as_bytes())
}

/// Whether a credential with this token is there already.
fn already_held(credentials: &Vec<Credential>, token: &str) -> (r: bool)
    ensures
        r == holds_token(views(credentials@), token@),
{
    let mut i: usize = 0;
    while i < credentials.len()
        invariant
            i <= credentials@.len(),
            forall|k: int| 0 <= k < i ==> (#[trigger] views(credentials@)[k]).token != token@,
        decreases credentials@.len() - i,
    {
        if same_token(credentials[i].token.as_str(), token) {
            assert(views(credentials@)[i as int].token == token@);
            return true;
        }
        i += 1;
    }
    false
}

/// Reads one entry.
fn parse_entry(entry: &str, before: &Vec<Credential>) -> (r: Result<Credential, ConfigError>)
    ensures
        match r {
            Err(error) => entry_defect(entry@, views(before@)) == Some(error.defect),
            Ok(credential) => entry_defect(entry@, views(before@)).is_none() && credential.cview()
                == entry_credential(entry@),
        },
{
    if entry.is_empty() || !same(trim(entry).as_str(), entry) {
        return Err(ConfigError::new(ConfigDefect::InvalidEntry));
    }
    let (scope, token) = match split_text_once(entry, ':') {
        None => {
            return Err(ConfigError::new(ConfigDefect::MissingSeparator));
        },
        Some(pair) => pair,
    };
    let scope = match Scope::parse(scope.as_str()) {
        None => {
            return Err(ConfigError::new(ConfigDefect::InvalidScope));
        },
        Some(scope) => scope,
    };
    if token.as_str().is_empty() {
        return Err(ConfigError::new(ConfigDefect::EmptyToken));
    }
    if forbidden_char(token.as_str()) {
        return Err(ConfigError::new(ConfigDefect::InvalidToken));
    }
    if already_held(before, token.as_str()) {
        return Err(ConfigError::new(ConfigDefect::DuplicateToken));
    }
    Ok(Credential { token, scope })
}

impl AuthConfig {
    /// The credentials, in the order of the configuration.
    pub closed spec fn spec_credentials(&self) -> Seq<CredentialView> {
        views(self.credentials@)
    }

    #[verifier::type_invariant]
    spec fn sound(self) -> bool {
        well_configured(views(self.credentials@))
    }

    /// Parses a TRAZA_TOKENS value (`scope:token`, comma-separated).
    pub fn parse(raw: &str) -> (r: Result<Self, ConfigError>)
        ensures
            match r {
                Ok(config) => configured(raw@) == Ok::<Seq<CredentialView>, ConfigDefect>(
                    config.spec_credentials(),
                ),
                Err(error) => configured(raw@) == Err::<Seq<CredentialView>, ConfigDefect>(
                    error.defect,
                ),
            },
    {
        if raw.is_empty() {
            return Err(ConfigError::new(ConfigDefect::Empty));
        }
        let entries = split_text(raw, ',');
        let mut credentials: Vec<Credential> = Vec::new();
        let mut i: usize = 0;
        let ghost all = split(raw@, ',');
        proof {
            assert(all.skip(0) == all);
            assert(views(credentials@) == Seq::<CredentialView>::empty());
        }
        while i < entries.len()
            invariant
                i <= entries@.len(),
                texts(entries@) == all,
                all == split(raw@, ','),
                raw@.len() > 0,
                read_entries(all.skip(i as int), views(credentials@)) == configured(raw@),
            decreases entries@.len() - i,
        {
            assert(all.skip(i as int)[0] == entries@[i as int]@) by {
                assert(all[i as int] == texts(entries@)[i as int]);
            }
            assert(all.skip(i as int).skip(1) == all.skip(i + 1));
            match parse_entry(entries[i].as_str(), &credentials) {
                Err(error) => {
                    return Err(error);
                },
                Ok(credential) => {
                    let ghost before = credentials@;
                    credentials.push(credential);
                    assert(views(credentials@) == views(before).push(credential.cview()));
                },
            }
            i += 1;
        }
        proof {
            lemma_read_entries(all, seq![]);
        }
        Ok(AuthConfig { credentials })
    }

    /// Checks a request: bearer token match (constant-time) and scope for the
    /// method.
    pub fn authorize(&self, authorization: Option<&str>, method: &str) -> (r: Result<
        (),
        AuthFailure,
    >)
        ensures
            r == match authenticated(self.spec_credentials(), header_view(authorization)) {
                Err(failure) => Err::<(), AuthFailure>(failure),
                Ok(scope) => if scope.spec_permits(method@) {
                    Ok(())
                } else {
                    Err(AuthFailure::Forbidden)
                },
            },
    {
        match self.scope_for(authorization) {
            Err(failure) => Err(failure),
            Ok(scope) => if scope.permits(method) {
                Ok(())
            } else {
                Err(AuthFailure::Forbidden)
            },
        }
    }

    /// Authenticates a bearer token and returns what it may do, without
    /// applying the HTTP-method rule.
    pub fn scope_for(&self, authorization: Option<&str>) -> (r: Result<Scope, AuthFailure>)
        ensures
            r == authenticated(self.spec_credentials(), header_view(authorization)),
    {
        let token = match authorization {
            None => {
                return Err(AuthFailure::Unauthorized);
            },
            Some(header) => match parse_bearer(header) {
                None => {
                    return Err(AuthFailure::Unauthorized);
                },
                Some(token) => token,
            },
        };
        // Every credential is checked, even after a match: lookup time does
        // not depend on where the token stands.
        let mut matched: Option<Scope> = None;
        let mut i: usize = 0;
        while i < self.credentials.len()
            invariant
                i <= self.credentials@.len(),
                matched == scope_of(self.spec_credentials().take(i as int), token@),
            decreases self.credentials@.len() - i,
        {
            let equal = same_token(self.credentials[i].token.as_str(), token.as_str());
            if equal {
                matched = Some(self.credentials[i].scope);
            }
            proof {
                let c = self.spec_credentials();
                assert(c.take(i + 1).drop_last() == c.take(i as int));
                assert(c.take(i + 1).last() == self.credentials@[i as int].cview());
            }
            i += 1;
        }
        assert(self.spec_credentials().take(i as int) == self.spec_credentials());
        match matched {
            Some(scope) => Ok(scope),
            None => Err(AuthFailure::Unauthorized),
        }
    }

    /// What a log may say of a configuration: how many credentials it holds.
    pub fn redacted(&self) -> (r: String)
        ensures
            r@ == "AuthConfig { credential_count: "@ + dec(self.spec_credentials().len())
                + ", credentials: \"<redacted>\" }"@,
    {
        let mut r = copy("AuthConfig { credential_count: ");
        r.push_str(decimal(self.credentials.len() as u64).as_str());
        r.push_str(", credentials: \"<redacted>\" }");
        r
    }
}

// ----------------------------------------------------------------------- laws

proof fn lemma_scope_of(credentials: Seq<CredentialView>, n: int, i: int)
    requires
        well_configured(credentials),
        0 <= i < n <= credentials.len(),
    ensures
        scope_of(credentials.take(n), credentials[i].token) == Some(credentials[i].scope),
    decreases n,
{
    let c = credentials.take(n);
    assert(c.last() == credentials[n - 1]);
    assert(c.drop_last() == credentials.take(n - 1));
    if i < n - 1 {
        assert(credentials[i].token != credentials[n - 1].token);
        lemma_scope_of(credentials, n - 1, i);
    }
}

/// Every credential of an accepted configuration authenticates with its own
/// scope.
pub proof fn law_a_configured_token_authenticates(raw: Seq<char>, i: int)
    requires
        configured(raw).is_ok(),
        0 <= i < configured(raw).unwrap().len(),
    ensures
        ({
            let credentials = configured(raw).unwrap();
            authenticated(credentials, Some("Bearer "@ + credentials[i].token)) == Ok::<
                Scope,
                AuthFailure,
            >(credentials[i].scope)
        }),
{
    let credentials = configured(raw).unwrap();
    lemma_read_entries(split(raw, ','), seq![]);
    let prefix = "Bearer "@;
    let token = credentials[i].token;
    let header = prefix + token;
    assert(header.take(prefix.len() as int) == prefix);
    assert(header.skip(prefix.len() as int) == token);
    assert(credentials.take(credentials.len() as int) == credentials);
    lemma_scope_of(credentials, credentials.len() as int, i);
}

/// A token that no entry configures is refused, whatever the method.
pub proof fn law_an_unknown_token_is_unauthorized(
    credentials: Seq<CredentialView>,
    token: Seq<char>,
)
    requires
        !holds_token(credentials, token),
    ensures
        scope_of(credentials, token).is_none(),
    decreases credentials.len(),
{
    if credentials.len() > 0 {
        assert(credentials.last() == credentials[credentials.len() - 1]);
        assert forall|i: int| 0 <= i < credentials.drop_last().len() implies (
        #[trigger] credentials.drop_last()[i]).token != token by {
            assert(credentials.drop_last()[i] == credentials[i]);
        }
        law_an_unknown_token_is_unauthorized(credentials.drop_last(), token);
    }
}

/// Whatever a read-only token may do, a read-write token may do, and whatever
/// that may do, an admin token may do.
pub proof fn law_scopes_are_nested(method: Seq<char>)
    ensures
        Scope::ReadOnly.spec_permits(method) ==> Scope::ReadWrite.spec_permits(method),
        Scope::ReadWrite.spec_permits(method) == Scope::Admin.spec_permits(method),
{
}

/// The scopes by name, and no others.
pub proof fn law_scope_names(name: Seq<char>)
    ensures
        name == "ro"@ <==> scope_named(name) == Some(Scope::ReadOnly),
        name == "rw"@ <==> scope_named(name) == Some(Scope::ReadWrite),
        name == "admin"@ <==> scope_named(name) == Some(Scope::Admin),
{
    reveal_strlit("ro");
    reveal_strlit("rw");
    reveal_strlit("admin");
    assert("ro"@[1] == 'o' && "rw"@[1] == 'w' && "admin"@[1] == 'd');
}

/// A read-only token permits `GET`, any other token `GET` and `POST`, in any
/// case, and no token anything else.
pub proof fn law_methods(scope: Scope, method: Seq<char>)
    ensures
        scope.spec_permits(method) <==> lowered(method) == "get"@ || (!(scope is ReadOnly)
            && lowered(method) == "post"@),
{
    reveal_strlit("GET");
    reveal_strlit("POST");
    reveal_strlit("get");
    reveal_strlit("post");
    assert(lowered("GET"@) =~= "get"@);
    assert(lowered("POST"@) =~= "post"@);
}

/// A request without a known token is answered 401 with a challenge, one whose
/// token does not permit it 403 without.
pub proof fn law_refusals()
    ensures
        AuthFailure::Unauthorized.spec_status() == 401,
        AuthFailure::Forbidden.spec_status() == 403,
        AuthFailure::Unauthorized.spec_challenge() == Some("Bearer"@),
        AuthFailure::Forbidden.spec_challenge() is None,
        AuthFailure::Unauthorized.spec_body() == "{\"error\":\"unauthorized\"}"@,
        AuthFailure::Forbidden.spec_body() == "{\"error\":\"forbidden\"}"@,
{
}

/// Whether a text is one token: not empty, and without a comma or ASCII white
/// space.
pub open spec fn is_one_token(token: Seq<char>) -> bool {
    &&& token.len() > 0
    &&& forall|i: int|
        0 <= i < token.len() ==> (#[trigger] token[i]) as u32 != 44 && token[i] as u32 != 32
            && token[i] as u32 != 9 && token[i] as u32 != 10 && token[i] as u32 != 12
            && token[i] as u32 != 13
}

proof fn lemma_comma(c: char)
    ensures
        (c == ',') == (c as u32 == 44),
{
}

proof fn lemma_one_token(token: Seq<char>)
    ensures
        (token.len() > 0 && !has_forbidden(token)) == is_one_token(token),
{
    if has_forbidden(token) {
        let i = choose|i: int|
            0 <= i < token.len() && (is_ascii_space(#[trigger] token[i]) || token[i] == ',');
        crate::text::law_white_space(token[i]);
        lemma_comma(token[i]);
        assert(token[i] as u32 == 44 || is_ascii_space(token[i]));
    }
    if token.len() > 0 && !has_forbidden(token) {
        assert forall|i: int| 0 <= i < token.len() implies (#[trigger] token[i]) as u32 != 44
            && token[i] as u32 != 32 && token[i] as u32 != 9 && token[i] as u32 != 10
            && token[i] as u32 != 12 && token[i] as u32 != 13 by {
            crate::text::law_white_space(token[i]);
            lemma_comma(token[i]);
            assert(!(is_ascii_space(token[i]) || token[i] == ','));
        }
    }
}

/// An entry that a configuration accepts is a scope's name, a colon and a
/// token, and becomes the credential with that scope and that token.
pub proof fn law_an_entry_is_scope_and_token(
    entry: Seq<char>,
    before: Seq<CredentialView>,
)
    requires
        entry_defect(entry, before) is None,
    ensures
        ({
            let c = entry_credential(entry);
            let name = match c.scope {
                Scope::ReadOnly => "ro"@,
                Scope::ReadWrite => "rw"@,
                Scope::Admin => "admin"@,
            };
            &&& entry == name.push(':') + c.token
            &&& is_one_token(c.token)
            &&& forall|i: int| 0 <= i < before.len() ==> (#[trigger] before[i]).token != c.token
        }),
{
    crate::text::law_splitting_once(entry, ':');
    let (scope, token) = split_once(entry, ':').unwrap();
    law_scope_names(scope);
    lemma_one_token(token);
    let c = entry_credential(entry);
    assert forall|i: int| 0 <= i < before.len() implies (#[trigger] before[i]).token
        != c.token by {
        assert(!holds_token(before, token));
    }
}

/// Why an entry is refused, in this order: it is empty or has white space
/// around it; it has no colon; what precedes the colon is no scope; nothing
/// follows the colon; what follows is no single token; the token came before.
pub proof fn law_why_an_entry_is_refused(
    name: Seq<char>,
    token: Seq<char>,
    entry: Seq<char>,
    before: Seq<CredentialView>,
)
    requires
        entry == name.push(':') + token,
        !name.contains(':'),
        trimmed(entry) == entry,
    ensures
        ({
            let known = name == "ro"@ || name == "rw"@ || name == "admin"@;
            let fresh = forall|i: int|
                0 <= i < before.len() ==> (#[trigger] before[i]).token != token;
            let defect = entry_defect(entry, before);
            &&& !known ==> defect == Some(ConfigDefect::InvalidScope)
            &&& known && token.len() == 0 ==> defect == Some(ConfigDefect::EmptyToken)
            &&& known && token.len() > 0 && !is_one_token(token) ==> defect == Some(
                ConfigDefect::InvalidToken,
            )
            &&& known && is_one_token(token) && !fresh ==> defect == Some(
                ConfigDefect::DuplicateToken,
            )
            &&& known && is_one_token(token) && fresh ==> defect is None
        }),
{
    crate::text::law_splitting_once(entry, ':');
    assert(entry[name.len() as int] == ':');
    let (head, tail) = split_once(entry, ':').unwrap();
    crate::text::lemma_find(entry, ':', 0);
    let k = crate::text::find(entry, ':');
    assert(k == name.len()) by {
        if k < name.len() {
            assert(entry[k] == name[k]);
            assert(name.contains(':'));
        }
    }
    assert(head =~= name);
    assert(tail =~= token);
    law_scope_names(name);
    lemma_one_token(token);
    if !(forall|i: int| 0 <= i < before.len() ==> (#[trigger] before[i]).token != token) {
        let i = choose|i: int| 0 <= i < before.len() && (#[trigger] before[i]).token == token;
        assert(holds_token(before, token));
    }
}

/// An entry without a colon, an empty one, or one with white space around it is
/// refused as such.
pub proof fn law_misshapen_entries(entry: Seq<char>, before: Seq<CredentialView>)
    ensures
        entry.len() == 0 || trimmed(entry) != entry ==> entry_defect(entry, before) == Some(
            ConfigDefect::InvalidEntry,
        ),
        entry.len() > 0 && trimmed(entry) == entry && !entry.contains(':') ==> entry_defect(
            entry,
            before,
        ) == Some(ConfigDefect::MissingSeparator),
{
    crate::text::law_splitting_once(entry, ':');
    if let Some((head, tail)) = split_once(entry, ':') {
        assert(entry[head.len() as int] == ':');
    }
}

/// A configuration is read entry by entry, the entries separated by commas: it
/// holds one credential for each, in their order, or stops at the first entry
/// that is refused. An empty one is refused.
pub proof fn law_a_configuration_is_its_entries(raw: Seq<char>, i: int)
    requires
        0 <= i < split(raw, ',').len(),
    ensures
        configured(Seq::empty()) == Err::<Seq<CredentialView>, ConfigDefect>(ConfigDefect::Empty),
        configured(raw) matches Ok(credentials) ==> {
            &&& credentials.len() == split(raw, ',').len()
            &&& credentials[i] == entry_credential(split(raw, ',')[i])
            &&& entry_defect(split(raw, ',')[i], credentials.take(i)) is None
        },
{
    if raw.len() > 0 && configured(raw) is Ok {
        lemma_entries_read(split(raw, ','), seq![], i);
        let c = configured(raw)->Ok_0;
        assert(c.take(0 + i) =~= c.take(i));
    }
}

proof fn lemma_entries_read(entries: Seq<Seq<char>>, before: Seq<CredentialView>, i: int)
    requires
        read_entries(entries, before) is Ok,
        0 <= i < entries.len(),
    ensures
        ({
            let all = read_entries(entries, before)->Ok_0;
            &&& all.len() == before.len() + entries.len()
            &&& all.take(before.len() as int) == before
            &&& all[before.len() + i] == entry_credential(entries[i])
            &&& entry_defect(entries[i], all.take(before.len() + i)) is None
        }),
    decreases entries.len(),
{
    let more = before.push(entry_credential(entries[0]));
    let rest = entries.skip(1);
    let all = read_entries(entries, before)->Ok_0;
    if rest.len() > 0 {
        lemma_entries_read(rest, more, if i > 0 {
            i - 1
        } else {
            0
        });
        assert(all.take(before.len() as int) =~= all.take(more.len() as int).take(
            before.len() as int,
        ));
        assert(all.take(before.len() as int) =~= before);
        assert(all.take(more.len() as int)[before.len() as int] == all[before.len() as int]);
    } else {
        reveal_with_fuel(read_entries, 2);
        assert(rest =~= seq![]);
        assert(all =~= more);
        assert(all.take(before.len() as int) =~= before);
    }
    if i > 0 {
        assert(rest[i - 1] == entries[i]);
    }
}

/// A refused configuration names the defect of its first bad entry.
pub proof fn law_the_first_bad_entry_is_named(
    entries: Seq<Seq<char>>,
    before: Seq<CredentialView>,
    defect: ConfigDefect,
)
    requires
        entries.len() > 0,
    ensures
        entry_defect(entries[0], before) == Some(defect) ==> read_entries(entries, before) == Err::<
            Seq<CredentialView>,
            ConfigDefect,
        >(defect),
        read_entries(Seq::empty(), before) == Ok::<Seq<CredentialView>, ConfigDefect>(before),
{
}

/// A request is who its header says: without a header, with one that is not
/// `Bearer ` and a single token, or with a token that no credential holds, it
/// is nobody.
pub proof fn law_who_a_request_comes_from(
    credentials: Seq<CredentialView>,
    header: Seq<char>,
    token: Seq<char>,
)
    ensures
        authenticated(credentials, None) == Err::<Scope, AuthFailure>(AuthFailure::Unauthorized),
        !crate::text::starts_with(header, "Bearer "@) ==> authenticated(credentials, Some(header))
            == Err::<Scope, AuthFailure>(AuthFailure::Unauthorized),
        !is_one_token(token) ==> authenticated(credentials, Some("Bearer "@ + token)) == Err::<
            Scope,
            AuthFailure,
        >(AuthFailure::Unauthorized),
        (forall|i: int| 0 <= i < credentials.len() ==> (#[trigger] credentials[i]).token != token)
            ==> authenticated(credentials, Some("Bearer "@ + token)) == Err::<Scope, AuthFailure>(
            AuthFailure::Unauthorized,
        ),
{
    crate::text::law_prefixes("Bearer "@, token, header);
    lemma_one_token(token);
    if forall|i: int| 0 <= i < credentials.len() ==> (#[trigger] credentials[i]).token != token {
        law_an_unknown_token_is_unauthorized(credentials, token);
    }
}

/// What a refused configuration is told, by its defect.
pub proof fn law_configuration_messages()
    ensures
        defect_message(ConfigDefect::Empty) == "TRAZA_TOKENS must not be empty"@,
        defect_message(ConfigDefect::InvalidEntry) == "TRAZA_TOKENS contains an invalid entry"@,
        defect_message(ConfigDefect::MissingSeparator)
            == "TRAZA_TOKENS entries must use scope:token"@,
        defect_message(ConfigDefect::InvalidScope) == "TRAZA_TOKENS contains an invalid scope"@,
        defect_message(ConfigDefect::EmptyToken) == "TRAZA_TOKENS contains an empty token"@,
        defect_message(ConfigDefect::InvalidToken) == "TRAZA_TOKENS contains an invalid token"@,
        defect_message(ConfigDefect::DuplicateToken) == "TRAZA_TOKENS contains a duplicate token"@,
{
}

} // verus!
