//! What the client asks the control plane, and what it makes of the answers.
//!
//! Nothing here opens a connection. A request is a value, and so is an answer:
//! its status, and what its body was read as.
use crate::text;
use vstd::prelude::*;
use vstd::string::*;

verus! {

/// How long a request may take, in seconds.
pub const TIMEOUT: u64 = 20;

/// A device of the account, as the service describes it.
pub struct Device {
    pub id: i64,
    pub name: String,
    pub public_key: String,
    pub tunnel_ip: String,
    pub tunnel_ip6: String,
}

/// What signing in grants.
pub struct Granted {
    pub token: String,
    pub device: Device,
}

/// Coordinates the control plane may or may not send, each held as the bits of
/// the double that carried it. It sends none today, so the client falls back to
/// the table of places; the moment the service starts sending them they take
/// precedence.
#[derive(Clone, Copy, PartialEq, Eq, Structural, Debug)]
pub struct Coords {
    pub latitude: Option<u64>,
    pub longitude: Option<u64>,
}

/// The bits of a negative zero.
pub const MINUS_ZERO: u64 = 0x8000_0000_0000_0000;

/// Whether a double with these bits equals zero.
pub open spec fn is_zero(bits: u64) -> bool {
    bits == 0 || bits == MINUS_ZERO
}

impl Coords {
    /// The coordinates, when both are there. Null Island is what a service sends
    /// when it means "unknown".
    pub fn pair(&self) -> (r: Option<(u64, u64)>)
        ensures
            r == given(*self),
    {
        match (self.latitude, self.longitude) {
            (Some(lat), Some(lon)) => {
                if (lat == 0 || lat == MINUS_ZERO) && (lon == 0 || lon == MINUS_ZERO) {
                    None
                } else {
                    Some((lat, lon))
                }
            },
            _ => None,
        }
    }
}

/// The coordinates that were sent and mean something.
pub open spec fn given(coords: Coords) -> Option<(u64, u64)> {
    match (coords.latitude, coords.longitude) {
        (Some(lat), Some(lon)) if !(is_zero(lat) && is_zero(lon)) => Some((lat, lon)),
        _ => None,
    }
}

/// No coordinates at all.
pub open spec fn nowhere() -> Coords {
    Coords { latitude: None, longitude: None }
}

impl Default for Coords {
    fn default() -> (r: Coords)
        ensures
            r == nowhere(),
    {
        Coords { latitude: None, longitude: None }
    }
}

/// An entry node.
pub struct Relay {
    pub country: String,
    pub city: String,
    pub endpoint: String,
    pub port: u16,
    pub public_key: String,
    pub coords: Coords,
}

/// A node traffic can leave by.
pub struct Exit {
    pub id: i64,
    /// The country's full English name. Always present.
    pub country: String,
    /// ISO 3166-1 alpha-2, upper case, but empty on some records, which is why
    /// the name above counts too.
    pub country_code: String,
    pub city: String,
    pub moniker: String,
    /// `provisioned` once the service has set this exit up for this device;
    /// `discovered` for the rest, which are available but not yet ours.
    pub state: String,
    /// How many peers the exit carries. A rough stand-in for load.
    pub peers: i64,
    /// Whether the node sits on a residential line or in a datacentre. Optional
    /// on purpose: the service leaves it null where it does not know, and a
    /// client that guessed would be confidently wrong.
    pub residential: Option<bool>,
    /// The autonomous system the node announces from. Shown as provenance.
    pub asn: Option<String>,
    pub coords: Coords,
}

/// What kind of line an exit leaves by. The numbers cross into the interface,
/// which has no room for an enum in a field.
pub const KIND_UNKNOWN: i32 = 0;

pub const KIND_RESIDENTIAL: i32 = 1;

pub const KIND_DATACENTRE: i32 = 2;

/// The number for what the service says of a line.
pub open spec fn kind_of(residential: Option<bool>) -> i32 {
    match residential {
        Some(true) => KIND_RESIDENTIAL,
        Some(false) => KIND_DATACENTRE,
        None => KIND_UNKNOWN,
    }
}

impl Exit {
    /// What kind of line this exit leaves by.
    pub fn kind(&self) -> (r: i32)
        ensures
            r == kind_of(self.residential),
    {
        match self.residential {
            Some(home) => {
                if home {
                    KIND_RESIDENTIAL
                } else {
                    KIND_DATACENTRE
                }
            },
            None => KIND_UNKNOWN,
        }
    }
}

/// The account, as the service describes it.
pub struct Account {
    pub expires_at: String,
    pub active: bool,
    pub devices: i64,
    pub max_devices: i64,
}

/// What the body of a refusal holds, as far as it could be read.
pub struct Refusal {
    pub error: Option<String>,
    pub devices: Option<Vec<Device>>,
}

/// Why a request came to nothing.
#[derive(Debug)]
pub enum Error {
    /// The account already carries the maximum number of devices.
    TooManyDevices(Vec<String>),
    /// The token has lapsed. They last a day, and there is no dedicated refresh
    /// route: signing in again with the key already registered returns the same
    /// device and a fresh token.
    Unauthorised,
    Refused(String),
    Unreachable(String),
}

/// What an error says to the user.
pub open spec fn message_of(error: Error) -> Seq<char> {
    match error {
        Error::TooManyDevices(names) => "Device limit reached. Revoke one of these: "@
            + text::joined(text::texts(names@), ", "@),
        Error::Unauthorised => "Session expired."@,
        Error::Refused(message) => message@,
        Error::Unreachable(message) => "Service unreachable: "@ + message@,
    }
}

impl Error {
    /// What the error says to the user.
    pub fn message(&self) -> (r: String)
        ensures
            r@ == message_of(*self),
    {
        match self {
            Error::TooManyDevices(names) => {
                let mut r = "Device limit reached. Revoke one of these: ".to_owned();
                r.append(text::join(names, ", ").as_str());
                r
            },
            Error::Unauthorised => "Session expired.".to_owned(),
            Error::Refused(message) => message.clone(),
            Error::Unreachable(message) => {
                let mut r = "Service unreachable: ".to_owned();
                r.append(message.as_str());
                r
            },
        }
    }
}

// Requests

#[derive(Clone, Copy, PartialEq, Eq, Structural, Debug)]
pub enum Method {
    Get,
    Post,
}

/// What to send.
pub struct Request {
    pub method: Method,
    pub url: String,
    /// The bearer token, where the call takes one.
    pub token: Option<String>,
    /// The body, in JSON.
    pub body: Option<String>,
}

/// What a request is, apart from how it is held.
#[verifier::ext_equal]
pub struct Asked {
    pub method: Method,
    pub url: Seq<char>,
    pub token: Option<Seq<char>>,
    pub body: Option<Seq<char>>,
}

impl View for Request {
    type V = Asked;

    open spec fn view(&self) -> Asked {
        Asked {
            method: self.method,
            url: self.url@,
            token: text::maybe(self.token),
            body: text::maybe(self.body),
        }
    }
}

/// A digit of a number in base sixteen.
pub open spec fn hex(d: int) -> char {
    if d < 10 {
        ('0' as u32 + d) as char
    } else {
        ('a' as u32 + d - 10) as char
    }
}

/// The letter of the short form JSON has for a character, when it has one.
pub open spec fn short_form(c: char) -> Option<char> {
    if c == '"' || c == '\\' {
        Some(c)
    } else if c as int == 8 {
        Some('b')
    } else if c == '\t' {
        Some('t')
    } else if c == '\n' {
        Some('n')
    } else if c as int == 12 {
        Some('f')
    } else if c == '\r' {
        Some('r')
    } else {
        None
    }
}

/// How a character of a text is written in JSON.
pub open spec fn json_char(c: char) -> Seq<char> {
    match short_form(c) {
        Some(letter) => seq!['\\', letter],
        None => if (c as int) < 32 {
            seq!['\\', 'u', '0', '0', hex(c as int / 16), hex(c as int % 16)]
        } else {
            seq![c]
        },
    }
}

/// How the characters of a text are written in JSON.
pub open spec fn json_chars(s: Seq<char>) -> Seq<char>
    decreases s.len(),
{
    if s.len() == 0 {
        Seq::empty()
    } else {
        json_chars(s.drop_last()) + json_char(s.last())
    }
}

/// How a text is written in JSON: between quotes, with its quotes, its backslashes and
/// its control characters escaped.
pub open spec fn json_text(s: Seq<char>) -> Seq<char> {
    seq!['"'] + json_chars(s) + seq!['"']
}

/// Whether JSON writes a text as it is: no quote, no backslash and no control
/// character in it.
pub open spec fn is_plain(s: Seq<char>) -> bool {
    forall|i: int| 0 <= i < s.len() ==> ' ' <= #[trigger] s[i] && s[i] != '"' && s[i] != '\\'
}

/// Where there is nothing to escape, JSON writes a text between quotes as it is.
pub proof fn lemma_plain_in_json(s: Seq<char>)
    requires
        is_plain(s),
    ensures
        json_text(s) == seq!['"'] + s + seq!['"'],
{
    lemma_plain_chars(s);
}

proof fn lemma_plain_chars(s: Seq<char>)
    requires
        is_plain(s),
    ensures
        json_chars(s) == s,
    decreases s.len(),
{
    if s.len() > 0 {
        let before = s.drop_last();
        assert forall|i: int| 0 <= i < before.len() implies ' ' <= #[trigger] before[i] && before[i]
            != '"' && before[i] != '\\' by {
            assert(before[i] == s[i]);
        }
        lemma_plain_chars(before);
        assert(s[s.len() - 1] == s.last());
        assert(json_char(s.last()) =~= seq![s.last()]);
        assert(before + seq![s.last()] =~= s);
    } else {
        assert(json_chars(s) =~= s);
    }
}

/// `serde_json`'s form of a string: between quotes, with what JSON has escaped
/// escaped, shortly where JSON has a short form and otherwise by its number.
#[verifier::external_body]
fn json(s: &str) -> (r: String)
    ensures
        r@ == json_text(s@),
{
    serde_json::Value::from(s).to_string()
}

/// The body of a request to sign in.
pub open spec fn sign_in_body(account_number: Seq<char>, public_key: Seq<char>) -> Seq<char> {
    "{\"account_number\":"@ + json_text(account_number) + ",\"public_key\":"@ + json_text(public_key)
        + "}"@
}

/// The body of a request to leave by an exit, or by none.
pub open spec fn exit_body(exit_id: Option<i64>) -> Seq<char> {
    "{\"exit_id\":"@ + (match exit_id {
        Some(id) => text::decimal_signed(id as int),
        None => "null"@,
    }) + "}"@
}

/// The control plane, as the client addresses it.
pub struct Client {
    base: String,
    timeout: u64,
}

impl Client {
    /// Where the service is, with no slash at its end.
    pub closed spec fn base(self) -> Seq<char> {
        self.base@
    }

    /// How long one of its requests may take, in seconds.
    pub closed spec fn deadline(self) -> u64 {
        self.timeout
    }

    /// The service at `base`, on the usual deadline.
    pub fn new(base: &str) -> (r: Client)
        ensures
            r.base() == text::trim_end_of(base@, '/'),
            r.deadline() == TIMEOUT,
    {
        Client::with_timeout(base, TIMEOUT)
    }

    /// The same on a deadline of the caller's choosing. The background refresh
    /// uses a short one so it cannot hold the work queue.
    pub fn with_timeout(base: &str, timeout: u64) -> (r: Client)
        ensures
            r.base() == text::trim_end_of(base@, '/'),
            r.deadline() == timeout,
    {
        Client { base: text::trim_end_matches(base, '/'), timeout }
    }

    /// How long a request may take, in seconds.
    pub fn timeout(&self) -> (r: u64)
        ensures
            r == self.deadline(),
    {
        self.timeout
    }

    fn url(&self, path: &str) -> (r: String)
        ensures
            r@ == self.base() + path@,
    {
        let mut r = self.base.clone();
        r.append(path);
        r
    }

    /// Signing in creates the device: the account number and the freshly
    /// generated public key go up, nothing else.
    pub fn sign_in(&self, account_number: &str, public_key: &str) -> (r: Request)
        ensures
            r@ == (Asked {
                method: Method::Post,
                url: self.base() + "/api/v1/login"@,
                token: None,
                body: Some(sign_in_body(account_number@, public_key@)),
            }),
    {
        let mut body = "{\"account_number\":".to_owned();
        body.append(json(account_number).as_str());
        body.append(",\"public_key\":");
        body.append(json(public_key).as_str());
        body.append("}");
        Request {
            method: Method::Post,
            url: self.url("/api/v1/login"),
            token: None,
            body: Some(body),
        }
    }

    /// Signing out revokes the device.
    pub fn sign_out(&self, token: &str) -> (r: Request)
        ensures
            r@ == (Asked {
                method: Method::Post,
                url: self.base() + "/api/v1/logout"@,
                token: Some(token@),
                body: None,
            }),
    {
        Request {
            method: Method::Post,
            url: self.url("/api/v1/logout"),
            token: Some(token.to_owned()),
            body: None,
        }
    }

    /// What the account is.
    pub fn account(&self, token: &str) -> (r: Request)
        ensures
            r@ == (Asked {
                method: Method::Get,
                url: self.base() + "/api/v1/account"@,
                token: Some(token@),
                body: None,
            }),
    {
        Request {
            method: Method::Get,
            url: self.url("/api/v1/account"),
            token: Some(token.to_owned()),
            body: None,
        }
    }

    /// Which entry nodes there are.
    pub fn relays(&self) -> (r: Request)
        ensures
            r@ == (Asked {
                method: Method::Get,
                url: self.base() + "/api/v1/relays"@,
                token: None,
                body: None,
            }),
    {
        Request { method: Method::Get, url: self.url("/api/v1/relays"), token: None, body: None }
    }

    /// Which exits there are.
    pub fn exits(&self, token: &str) -> (r: Request)
        ensures
            r@ == (Asked {
                method: Method::Get,
                url: self.base() + "/api/v1/exits"@,
                token: Some(token@),
                body: None,
            }),
    {
        Request {
            method: Method::Get,
            url: self.url("/api/v1/exits"),
            token: Some(token.to_owned()),
            body: None,
        }
    }

    /// Picks an exit for this device, or clears it when given nothing.
    ///
    /// The answer matters: this is what tells the service where to send the
    /// traffic. Ignoring a refusal here brings the tunnel up over a selection
    /// the service never accepted: the interface reports itself connected and
    /// nothing reaches the internet, with nothing on screen to say why.
    pub fn choose_exit(&self, token: &str, exit_id: Option<i64>) -> (r: Request)
        ensures
            r@ == (Asked {
                method: Method::Post,
                url: self.base() + "/api/v1/exit"@,
                token: Some(token@),
                body: Some(exit_body(exit_id)),
            }),
    {
        let mut body = "{\"exit_id\":".to_owned();
        match exit_id {
            Some(id) => body.append(text::number_signed(id).as_str()),
            None => body.append("null"),
        }
        body.append("}");
        Request {
            method: Method::Post,
            url: self.url("/api/v1/exit"),
            token: Some(token.to_owned()),
            body: Some(body),
        }
    }
}

// Answers

/// Whether a status is one of success.
pub open spec fn is_success(status: u16) -> bool {
    200 <= status < 300
}

/// The status of a request whose token is not accepted.
pub const UNAUTHORISED: u16 = 401;

/// What is said of a refusal: what the service said, or else its status.
pub open spec fn refusal_text(error: Option<String>, status_line: Seq<char>) -> Seq<char> {
    match error {
        Some(message) => message@,
        None => "the service answered "@ + status_line,
    }
}

fn refusal(error: Option<String>, status_line: &str) -> (r: Error)
    ensures
        r is Refused,
        r->Refused_0@ == refusal_text(error, status_line@),
{
    match error {
        Some(message) => Error::Refused(message),
        None => {
            let mut message = "the service answered ".to_owned();
            message.append(status_line);
            Error::Refused(message)
        },
    }
}

/// Whether an answer that was worth no reading comes to this.
pub open spec fn is_checked(
    status: u16,
    status_line: Seq<char>,
    body: Refusal,
    r: Result<(), Error>,
) -> bool {
    if is_success(status) {
        r == Ok::<(), Error>(())
    } else if status == UNAUTHORISED {
        r == Err::<(), Error>(Error::Unauthorised)
    } else {
        r matches Err(Error::Refused(said)) && said@ == refusal_text(body.error, status_line)
    }
}

/// For the calls that return nothing worth reading but can still refuse.
/// `status_line` is the status with its name, and `body` what the body was read
/// as, nothing when it could not be.
pub fn check(status: u16, status_line: &str, body: Refusal) -> (r: Result<(), Error>)
    ensures
        is_checked(status, status_line@, body, r),
{
    if 200 <= status && status < 300 {
        return Ok(());
    }
    if status == UNAUTHORISED {
        return Err(Error::Unauthorised);
    }
    Err(refusal(body.error, status_line))
}

/// The names of some devices.
pub open spec fn names_of(devices: Seq<Device>) -> Seq<Seq<char>> {
    Seq::new(devices.len(), |i: int| devices[i].name@)
}

fn names(devices: Vec<Device>) -> (r: Vec<String>)
    ensures
        text::texts(r@) == names_of(devices@),
{
    let mut r: Vec<String> = Vec::new();
    let mut i: usize = 0;
    while i < devices.len()
        invariant
            i <= devices@.len(),
            r@.len() == i,
            forall|j: int| 0 <= j < i ==> (#[trigger] r@[j])@ == devices@[j].name@,
        decreases devices@.len() - i,
    {
        r.push(devices[i].name.clone());
        i += 1;
    }
    assert(text::texts(r@) =~= names_of(devices@));
    r
}

/// Whether an answer comes to this: what its body was read as when it is one of
/// success, else why not.
pub open spec fn is_read<T>(
    status: u16,
    status_line: Seq<char>,
    content: Result<T, String>,
    body: Refusal,
    r: Result<T, Error>,
) -> bool {
    if is_success(status) {
        match content {
            Ok(value) => r == Ok::<T, Error>(value),
            Err(reason) => r matches Err(Error::Refused(said)) && said@ == "unreadable response: "@
                + reason@,
        }
    } else if status == UNAUTHORISED {
        r == Err::<T, Error>(Error::Unauthorised)
    } else {
        match body.devices {
            Some(devices) => r matches Err(Error::TooManyDevices(names)) && text::texts(names@)
                == names_of(devices@),
            None => r matches Err(Error::Refused(said)) && said@ == refusal_text(
                body.error,
                status_line,
            ),
        }
    }
}

/// For the calls whose answer is worth reading. `content` is what the body was
/// read as, or why it could not be; `body` what it was read as for a refusal,
/// nothing when it could not be.
pub fn read<T>(
    status: u16,
    status_line: &str,
    content: Result<T, String>,
    body: Refusal,
) -> (r: Result<T, Error>)
    ensures
        is_read(status, status_line@, content, body, r),
{
    if 200 <= status && status < 300 {
        return match content {
            Ok(value) => Ok(value),
            Err(reason) => {
                let mut said = "unreadable response: ".to_owned();
                said.append(reason.as_str());
                Err(Error::Refused(said))
            },
        };
    }
    if status == UNAUTHORISED {
        return Err(Error::Unauthorised);
    }
    match body.devices {
        Some(devices) => Err(Error::TooManyDevices(names(devices))),
        None => Err(refusal(body.error, status_line)),
    }
}

// What the answers come to

/// Coordinates count when both were sent and they are not both zero, and are then taken
/// as they were sent, the latitude first.
pub proof fn lemma_which_coordinates_count(lat: u64, lon: u64)
    ensures
        given(Coords { latitude: None, longitude: Some(lon) }) is None,
        given(Coords { latitude: Some(lat), longitude: None }) is None,
        given(Coords { latitude: None, longitude: None }) is None,
        given(Coords { latitude: Some(lat), longitude: Some(lon) }) is None <==> (lat == 0 || lat
            == 0x8000_0000_0000_0000) && (lon == 0 || lon == 0x8000_0000_0000_0000),
        given(Coords { latitude: Some(lat), longitude: Some(lon) }) matches Some((a, b)) ==> a == lat
            && b == lon,
{
}

/// A call that returns nothing worth reading succeeds exactly when its status is one of
/// success. A token that is not accepted is told apart from every other refusal, and any
/// other refusal says what the service said, or its status when it said nothing.
pub proof fn lemma_what_a_check_comes_to(
    status: u16,
    status_line: Seq<char>,
    body: Refusal,
    r: Result<(), Error>,
)
    requires
        is_checked(status, status_line, body, r),
    ensures
        r is Ok <==> 200 <= status <= 299,
        status == 401 ==> r matches Err(Error::Unauthorised),
        r matches Err(Error::Unauthorised) ==> status == 401,
        r matches Err(Error::Refused(said)) ==> (body.error matches Some(message) ==> said@
            == message@) && (body.error is None ==> said@ == "the service answered "@
            + status_line),
        !(200 <= status <= 299) && status != 401 ==> r is Err && r->Err_0 is Refused,
{
}

/// A call whose answer is worth reading comes to what was read when its status is one of
/// success, whatever else the body holds; to a lapsed token when the service does not
/// accept it; to the devices that fill the account, by name and in the order they came,
/// when it sends those; and to what it said otherwise.
pub proof fn lemma_what_a_reading_comes_to<T>(
    status: u16,
    status_line: Seq<char>,
    content: Result<T, String>,
    body: Refusal,
    r: Result<T, Error>,
)
    requires
        is_read(status, status_line, content, body, r),
    ensures
        r is Ok <==> 200 <= status <= 299 && content is Ok,
        r matches Ok(value) ==> content == Ok::<T, String>(value),
        r matches Err(Error::Unauthorised) ==> status == 401,
        status == 401 ==> r matches Err(Error::Unauthorised),
        200 <= status <= 299 && content is Err ==> (r matches Err(Error::Refused(said)) && said@
            == "unreadable response: "@ + content->Err_0@),
        r matches Err(Error::TooManyDevices(names)) ==> body.devices matches Some(devices) && {
            &&& names@.len() == devices@.len()
            &&& forall|i: int| 0 <= i < names@.len() ==> (#[trigger] names@[i])@ == devices@[i].name@
        },
        !(200 <= status <= 299) && status != 401 && body.devices is Some ==> r is Err && r->Err_0
            is TooManyDevices,
        !(200 <= status <= 299) && status != 401 && body.devices is None ==> r is Err && r->Err_0
            is Refused,
{
    if r is Err && r->Err_0 is TooManyDevices {
        let names = r->Err_0->TooManyDevices_0;
        let devices = body.devices->0;
        assert(text::texts(names@).len() == names_of(devices@).len());
        assert forall|i: int| 0 <= i < names@.len() implies (#[trigger] names@[i])@
            == devices@[i].name@ by {
            assert(text::texts(names@)[i] == names_of(devices@)[i]);
        }
    }
}

/// What the user is told: the names of the devices that fill the account, that the
/// session has expired, what the service said, or that it could not be reached and why.
pub proof fn lemma_what_the_user_is_told(names: Vec<String>, said: String)
    ensures
        message_of(Error::TooManyDevices(names)) == "Device limit reached. Revoke one of these: "@
            + text::joined(text::texts(names@), ", "@),
        message_of(Error::Unauthorised) == "Session expired."@,
        message_of(Error::Refused(said)) == said@,
        message_of(Error::Unreachable(said)) == "Service unreachable: "@ + said@,
{
}

/// What goes up to sign in is the account number and the public key, each under its own
/// name, and nothing else.
pub proof fn lemma_what_goes_up_to_sign_in(account_number: Seq<char>, public_key: Seq<char>)
    requires
        is_plain(account_number),
        is_plain(public_key),
    ensures
        sign_in_body(account_number, public_key) == "{\"account_number\":\""@ + account_number
            + "\",\"public_key\":\""@ + public_key + "\"}"@,
{
    lemma_plain_in_json(account_number);
    lemma_plain_in_json(public_key);
    reveal_strlit("{\"account_number\":");
    reveal_strlit(",\"public_key\":");
    reveal_strlit("}");
    reveal_strlit("{\"account_number\":\"");
    reveal_strlit("\",\"public_key\":\"");
    reveal_strlit("\"}");
    assert("{\"account_number\":"@ + seq!['"'] =~= "{\"account_number\":\""@);
    assert(seq!['"'] + ",\"public_key\":"@ + seq!['"'] =~= "\",\"public_key\":\""@);
    assert(seq!['"'] + "}"@ =~= "\"}"@);
    assert(sign_in_body(account_number, public_key) =~= ("{\"account_number\":"@ + seq!['"'])
        + account_number + (seq!['"'] + ",\"public_key\":"@ + seq!['"']) + public_key + (seq!['"']
        + "}"@));
}

/// What goes up to pick an exit is its number, and to pick none it is nothing: two
/// different picks are never the same request.
pub proof fn lemma_what_goes_up_to_pick(id: i64)
    ensures
        id >= 0 ==> exit_body(Some(id)) == "{\"exit_id\":"@ + text::decimal(id as nat) + "}"@,
        id < 0 ==> exit_body(Some(id)) == "{\"exit_id\":"@ + (seq!['-'] + text::decimal(-id as nat))
            + "}"@,
        exit_body(None) == "{\"exit_id\":"@ + "null"@ + "}"@,
{
}

/// A request is what it holds, each part in its own place.
pub proof fn lemma_a_request_as_it_is_held(request: Request)
    ensures
        request@.method == request.method,
        request@.url == request.url@,
        request.token matches Some(token) ==> request@.token == Some(token@),
        request.token is None ==> request@.token is None,
        request.body matches Some(body) ==> request@.body == Some(body@),
        request.body is None ==> request@.body is None,
{
}

} // verus!
