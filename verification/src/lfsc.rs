//! What the remote store says and how the library reads it: change sets, leases, errors,
//! and the requests that the client sends.

use crate::error::ErrorKind;
use crate::syncer::ChangeSet;
use crate::text::{
    decimal_text, hex_text, joined, number, parse_number, str_eq, to_decimal, to_hex,
};
use crate::types::{flagged, Checksum, PageNum, Pos, TXID};
use vstd::prelude::*;
use vstd::string::StringExecFns;

verus! {

/// The page numbers of `pages`, as a set.
pub open spec fn page_numbers(pages: Seq<PageNum>) -> Set<u32> {
    Set::new(|n: u32| exists|i: int| 0 <= i < pages.len() && (#[trigger] pages[i])@ == n)
}

/// A change set as the remote store reports it for one database: the position that the store
/// has reached, and either the pages that changed on the way or the word that any page may
/// have.
#[derive(Debug)]
pub enum Changes {
    /// Every page may have changed.
    All(Option<Pos>),
    /// The listed pages have changed; without a list, none has.
    Pages(Option<Pos>, Option<Vec<PageNum>>),
}

impl Changes {
    /// The position that the store has reached.
    pub open spec fn position(self) -> Option<Pos> {
        match self {
            Changes::All(pos) => pos,
            Changes::Pages(pos, _) => pos,
        }
    }

    /// What the report invalidates: everything, the listed pages, or nothing at all.
    pub open spec fn change_set(self) -> Option<ChangeSet> {
        match self {
            Changes::All(_) => Some(ChangeSet::All),
            Changes::Pages(_, None) => None,
            Changes::Pages(_, Some(pages)) => Some(ChangeSet::Pages(page_numbers(pages@))),
        }
    }

    /// The position that the store has reached.
    pub fn pos(&self) -> (r: Option<Pos>)
        ensures
            r == self.position(),
    {
        match self {
            Changes::All(pos) => *pos,
            Changes::Pages(pos, _) => *pos,
        }
    }
}

/// A change set as it stands in the store's answer.
#[derive(Debug)]
pub struct DbChanges {
    pub pos: Option<Pos>,
    pub pgnos: Option<Vec<PageNum>>,
    pub all: Option<bool>,
}

impl Changes {
    /// Reads an answer: it means "all pages" only where it says so with `true`.
    pub fn from_db_changes(c: DbChanges) -> (r: Changes)
        ensures
            r == if c.all == Some(true) {
                Changes::All(c.pos)
            } else {
                Changes::Pages(c.pos, c.pgnos)
            },
    {
        match c.all {
            Some(true) => Changes::All(c.pos),
            _ => Changes::Pages(c.pos, c.pgnos),
        }
    }
}

/// What the store says of a request that it refuses.
#[derive(Debug)]
pub struct LfscError {
    /// The HTTP status.
    pub http_code: u16,
    /// The store's code for the failure.
    pub code: String,
    /// The store's words for the failure.
    pub error: String,
}

impl LfscError {
    /// The name of the class of failures that the HTTP status stands for.
    pub fn label(&self) -> (r: &'static str)
        ensures
            r@ == status_label(self.http_code),
    {
        match self.http_code {
            400 => "validation",
            401 => "auth",
            404 => "notfound",
            409 => "conflict",
            422 => "unprocessable",
            _ => "unknown",
        }
    }

    /// The failure in words: the class, the code in brackets, and the store's words.
    pub fn describe(&self) -> (r: String)
        ensures
            r@ == status_label(self.http_code) + " ("@ + self.code@ + "): "@ + self.error@,
    {
        let mut r = String::from_str(self.label());
        r.append(" (");
        r.append(self.code.as_str());
        r.append("): ");
        r.append(self.error.as_str());
        r
    }
}

/// The name of the class of failures that an HTTP status stands for.
pub open spec fn status_label(http_code: u16) -> Seq<char> {
    if http_code == 400 {
        "validation"@
    } else if http_code == 401 {
        "auth"@
    } else if http_code == 404 {
        "notfound"@
    } else if http_code == 409 {
        "conflict"@
    } else if http_code == 422 {
        "unprocessable"@
    } else {
        "unknown"@
    }
}

/// Why a request to the store failed.
#[derive(Debug)]
pub enum Error {
    /// The request or the answer did not get through.
    Transport(String),
    /// The store no longer holds the position that the request named; it is at this one.
    PosMismatch(Pos),
    /// The store refused the request.
    Lfsc(LfscError),
    /// The answer could not be read.
    Body(ErrorKind),
    /// The client is not set up.
    Env(String),
}

impl Error {
    /// The kind of I/O failure that the failure is reported as.
    pub open spec fn kind_spec(&self) -> ErrorKind {
        match self {
            Error::Transport(_) => ErrorKind::Other,
            Error::PosMismatch(_) => ErrorKind::InvalidData,
            Error::Lfsc(e) => if e.http_code == 404 {
                ErrorKind::NotFound
            } else if e.http_code == 409 {
                ErrorKind::AlreadyExists
            } else {
                ErrorKind::Other
            },
            Error::Body(kind) => *kind,
            Error::Env(_) => ErrorKind::Other,
        }
    }

    /// The kind of I/O failure that the failure is reported as.
    pub fn kind(&self) -> (r: ErrorKind)
        ensures
            r == self.kind_spec(),
    {
        match self {
            Error::Transport(_) => ErrorKind::Other,
            Error::PosMismatch(_) => ErrorKind::InvalidData,
            Error::Lfsc(e) => if e.http_code == 404 {
                ErrorKind::NotFound
            } else if e.http_code == 409 {
                ErrorKind::AlreadyExists
            } else {
                ErrorKind::Other
            },
            Error::Body(kind) => *kind,
            Error::Env(_) => ErrorKind::Other,
        }
    }
}

/// The body of an answer that refuses a request.
#[derive(Debug)]
pub struct LfscErrorRepr {
    pub code: String,
    pub error: String,
    pub pos: Option<Pos>,
}

/// The failure that an answer with the HTTP status `http_code` and the body `repr` stands
/// for: a mismatch of positions where the store says so and names its position, and a
/// refusal otherwise.
pub fn status_error(http_code: u16, repr: LfscErrorRepr) -> (r: Error)
    ensures
        match repr.pos {
            Some(pos) if repr.code@ == "EPOSMISMATCH"@ => r == Error::PosMismatch(pos),
            _ => r matches Error::Lfsc(e) && e.http_code == http_code && e.code == repr.code
                && e.error == repr.error,
        },
{
    match repr.pos {
        Some(pos) => {
            if str_eq(repr.code.as_str(), "EPOSMISMATCH") {
                return Error::PosMismatch(pos);
            }
        },
        None => {},
    }
    Error::Lfsc(LfscError { http_code, code: repr.code, error: repr.error })
}

/// A position as it goes over the wire: the transaction id and the checksum, each in 16
/// hexadecimal digits, and zeros for no position.
pub fn serialize(value: &Option<Pos>) -> (r: (String, String))
    ensures
        r.0@ == hex_text(crate::types::txid_of(*value) as int, 16),
        r.1@ == hex_text(crate::types::checksum_of(*value) as int, 16),
{
    match value {
        Some(pos) => (
            to_hex(pos.txid.into_inner(), 16),
            to_hex(pos.post_apply_checksum.into_inner(), 16),
        ),
        None => (to_hex(0, 16), to_hex(0, 16)),
    }
}

/// Reads a position from the wire. Both parts are hexadecimal numbers; two zeros stand for
/// no position, and a transaction id of zero beside a checksum is malformed.
pub fn deserialize(txid: &str, post_apply_checksum: &str) -> (r: Result<Option<Pos>, ErrorKind>)
    ensures
        match (number(txid@, 16, u64::MAX as int), number(post_apply_checksum@, 16, u64::MAX as int)) {
            (Some(t), Some(c)) => if t == 0 && c == 0 {
                r == Ok::<Option<Pos>, ErrorKind>(None)
            } else if t == 0 {
                r == Err::<Option<Pos>, ErrorKind>(ErrorKind::InvalidData)
            } else {
                r matches Ok(Some(pos)) && pos.txid@ == t && pos.post_apply_checksum@ == flagged(
                    c as u64,
                )
            },
            _ => r == Err::<Option<Pos>, ErrorKind>(ErrorKind::InvalidData),
        },
{
    let t = match parse_number(txid, true) {
        Some(t) => t,
        None => return Err(ErrorKind::InvalidData),
    };
    let c = match parse_number(post_apply_checksum, true) {
        Some(c) => c,
        None => return Err(ErrorKind::InvalidData),
    };
    if t == 0 && c == 0 {
        return Ok(None);
    }
    match TXID::new(t) {
        Some(txid) => Ok(Some(Pos { txid, post_apply_checksum: Checksum::new(c) })),
        None => Err(ErrorKind::InvalidData),
    }
}

/// A position as it stands in a request: the transaction id and the checksum in 16
/// hexadecimal digits each, with a slash between them.
pub open spec fn pos_text(pos: Pos) -> Seq<char> {
    hex_text(pos.txid@ as int, 16) + "/"@ + hex_text(pos.post_apply_checksum@ as int, 16)
}

/// Writes a position as it stands in a request.
pub fn pos_to_string(pos: &Pos) -> (r: String)
    ensures
        r@ == pos_text(*pos),
{
    let mut r = to_hex(pos.txid.into_inner(), 16);
    r.append("/");
    r.append(to_hex(pos.post_apply_checksum.into_inner(), 16).as_str());
    r
}

/// The numbers of `pgnos` in decimal digits.
pub open spec fn page_texts(pgnos: Seq<PageNum>) -> Seq<Seq<char>> {
    Seq::new(pgnos.len(), |i: int| decimal_text(pgnos[i]@ as nat))
}

/// Writes page numbers as they stand in a request: in decimal digits, with commas between
/// them.
pub fn pgnos_to_string(pgnos: &Vec<PageNum>) -> (r: String)
    ensures
        r@ == joined(page_texts(pgnos@), ","@),
{
    let mut r = String::new();
    let mut i: usize = 0;
    while i < pgnos.len()
        invariant
            i <= pgnos@.len(),
            r@ == joined(page_texts(pgnos@).take(i as int), ","@),
        decreases pgnos@.len() - i,
    {
        let ghost before = r@;
        let ghost texts = page_texts(pgnos@);
        proof {
            assert(texts.take(i + 1).drop_last() =~= texts.take(i as int));
            assert(texts.take(i + 1).last() == decimal_text(pgnos@[i as int]@ as nat));
        }
        if i > 0 {
            r.append(",");
        }
        r.append(to_decimal(pgnos[i].into_inner() as u64).as_str());
        proof {
            if i == 0 {
                assert(texts.take(1)[0] == texts[0]);
                assert(r@ =~= texts[0]);
            }
        }
        i += 1;
    }
    proof {
        assert(page_texts(pgnos@).take(i as int) =~= page_texts(pgnos@));
    }
    r
}

/// The text of the URL that the `url` crate reads `text` as, if it reads it as one.
pub uninterp spec fn url_parsed(text: Seq<char>) -> Option<Seq<char>>;

/// The text of the URL that the `url` crate reads `url` as, once it has given it the path
/// `path`; nothing where it does not read `url` as a URL.
pub uninterp spec fn url_with_path(url: Seq<char>, path: Seq<char>) -> Option<Seq<char>>;

/// The text of the URL that the `url` crate reads `url` as, once it has added the pair of
/// `key` and `value` to its query; nothing where it does not read `url` as a URL.
pub uninterp spec fn url_with_pair(url: Seq<char>, key: Seq<char>, value: Seq<char>) -> Option<
    Seq<char>,
>;

/// `Url::parse`: reads a URL and writes it out again in the crate's normal form.
#[verifier::external_body]
pub(crate) fn url_parse(text: &str) -> (r: Option<String>)
    ensures
        r is Some <==> url_parsed(text@) is Some,
        r is Some ==> r->0@ == url_parsed(text@)->0,
{
    url::Url::parse(text).ok().map(String::from)
}

/// `Url::parse`, `Url::set_path` and the URL as text again: replaces the path of a URL.
/// There is no result where the text is no URL.
#[verifier::external_body]
pub(crate) fn url_set_path(url: &str, path: &str) -> (r: Option<String>)
    ensures
        r is Some <==> url_with_path(url@, path@) is Some,
        r is Some ==> r->0@ == url_with_path(url@, path@)->0,
{
    let mut u = url::Url::parse(url).ok()?;
    u.set_path(path);
    Some(String::from(u))
}

/// `Url::parse`, `Url::query_pairs_mut` with `Serializer::append_pair`, and the URL as
/// text again: adds a key and a value to the query of a URL, both escaped as a query
/// demands. There is no result where the text is no URL.
#[verifier::external_body]
pub(crate) fn url_append_pair(url: &str, key: &str, value: &str) -> (r: Option<String>)
    ensures
        r is Some <==> url_with_pair(url@, key@, value@) is Some,
        r is Some ==> r->0@ == url_with_pair(url@, key@, value@)->0,
{
    let mut u = url::Url::parse(url).ok()?;
    u.query_pairs_mut().append_pair(key, value);
    Some(String::from(u))
}

/// The upper-case hexadecimal digit for `d`, which is below 16.
pub open spec fn upper_hex_digit(d: int) -> char {
    if d < 10 {
        (d + 48) as char
    } else {
        (d + 55) as char
    }
}

/// The bytes `bytes` in upper-case hexadecimal digits, two for each byte.
pub open spec fn upper_hex(bytes: Seq<u8>) -> Seq<char>
    decreases bytes.len(),
{
    if bytes.len() == 0 {
        Seq::empty()
    } else {
        upper_hex(bytes.drop_last()).push(upper_hex_digit(bytes.last() as int / 16)).push(
            upper_hex_digit(bytes.last() as int % 16),
        )
    }
}

/// `hex::encode_upper`: writes bytes in upper-case hexadecimal digits.
#[verifier::external_body]
pub(crate) fn hex_encode_upper(bytes: &[u8]) -> (r: String)
    ensures
        r@ == upper_hex(bytes@),
{
    hex::encode_upper(bytes)
}

/// `Rng::fill` on `rand::thread_rng()`: eight bytes of chance. Nothing is said of the bytes
/// but their number. The generator stops the process where the system gives it no entropy
/// to start from.
#[verifier::external_body]
pub(crate) fn random_bytes() -> (r: Vec<u8>)
    ensures
        r@.len() == 8,
{
    let mut buf = [0u8; 8];
    rand::Rng::fill(&mut rand::thread_rng(), &mut buf);
    buf.to_vec()
}

/// The host of the store where none is named.
pub open spec fn default_host() -> Seq<char> {
    "https://litefs.fly.io"@
}

/// The cluster id that is made of the bytes `bytes`.
pub open spec fn cluster_id_of(bytes: Seq<u8>) -> Seq<char> {
    "LFSC"@ + upper_hex(bytes)
}

/// A request to the store.
#[derive(Debug)]
pub struct Request {
    /// The HTTP method.
    pub method: String,
    /// The URL, with its query.
    pub url: String,
    /// The headers, as names and values.
    pub headers: Vec<(String, String)>,
}

/// What a lease request asks for.
#[derive(Debug)]
pub enum LeaseOp {
    /// A new lease for so many milliseconds.
    Acquire(u64),
    /// So many more milliseconds for the lease with the given id.
    Refresh(String, u64),
}

/// The pairs `pairs` as plain text.
pub open spec fn pair_texts(pairs: Seq<(String, String)>) -> Seq<(Seq<char>, Seq<char>)> {
    Seq::new(pairs.len(), |i: int| (pairs[i].0@, pairs[i].1@))
}

/// The URL `url` with the pairs `pairs` added to its query one after another, if the `url`
/// crate takes each of them.
pub open spec fn url_with_pairs(url: Option<Seq<char>>, pairs: Seq<(Seq<char>, Seq<char>)>) -> Option<
    Seq<char>,
>
    decreases pairs.len(),
{
    if pairs.len() == 0 {
        url
    } else {
        match url_with_pairs(url, pairs.drop_last()) {
            Some(u) => url_with_pair(u, pairs.last().0, pairs.last().1),
            None => None,
        }
    }
}

/// Who the client is and where the store is.
pub struct ClientState {
    /// The URL of the store.
    pub host: Seq<char>,
    /// The token that authorizes the client.
    pub token: Option<Seq<char>>,
    /// The cluster that the client works on.
    pub cluster: Option<Seq<char>>,
    /// The id that the client gives its cluster.
    pub cluster_id: Option<Seq<char>>,
    /// The instance of the store that answered last, which later requests are routed to.
    pub instance_id: Option<Seq<char>>,
}

/// The view of a string that may be absent.
pub open spec fn text_of(s: Option<String>) -> Option<Seq<char>> {
    match s {
        Some(s) => Some(s@),
        None => None,
    }
}

/// The query of a request with the pairs `query`, for a client that works on `cluster`: the
/// cluster is named last.
pub open spec fn full_query(
    query: Seq<(Seq<char>, Seq<char>)>,
    cluster: Option<Seq<char>>,
) -> Seq<(Seq<char>, Seq<char>)> {
    match cluster {
        Some(c) => query.push(("cluster"@, c)),
        None => query,
    }
}

/// A header, if there is a value for it.
pub open spec fn header(name: Seq<char>, value: Option<Seq<char>>) -> Seq<(Seq<char>, Seq<char>)> {
    match value {
        Some(v) => seq![(name, v)],
        None => Seq::empty(),
    }
}

/// The headers that every request of the client `c` carries: the token, the instance to
/// route to, and the cluster id, as far as they are there.
pub open spec fn common_headers(c: ClientState) -> Seq<(Seq<char>, Seq<char>)> {
    header("Authorization"@, c.token) + header("fly-force-instance-id"@, c.instance_id) + header(
        "Litefs-Cluster-Id"@,
        c.cluster_id,
    )
}

/// What a request is, as plain text.
pub struct RequestText {
    /// The HTTP method.
    pub method: Seq<char>,
    /// The URL, with its query.
    pub url: Seq<char>,
    /// The headers, as names and values.
    pub headers: Seq<(Seq<char>, Seq<char>)>,
}

/// The request of the client `c` with the method `method` for the path `path` and the
/// query `query`, with the headers `extra` besides those that every request carries. There
/// is none where the `url` crate does not take the host, the path or the query.
pub open spec fn request_for(
    c: ClientState,
    method: Seq<char>,
    path: Seq<char>,
    query: Seq<(Seq<char>, Seq<char>)>,
    extra: Seq<(Seq<char>, Seq<char>)>,
) -> Option<RequestText> {
    match url_with_pairs(url_with_path(c.host, path), full_query(query, c.cluster)) {
        Some(url) => Some(RequestText { method, url, headers: common_headers(c) + extra }),
        None => None,
    }
}

/// Whether `r` is the request `want`, or a failure where there is no request.
pub open spec fn answers(r: Result<Request, Error>, want: Option<RequestText>) -> bool {
    match want {
        Some(w) => r matches Ok(req) && req.method@ == w.method && req.url@ == w.url
            && pair_texts(req.headers@) == w.headers,
        None => r matches Err(Error::Env(_)),
    }
}

/// The lease request `op` as a query, behind the name of the database.
pub open spec fn lease_query(db: Seq<char>, op: LeaseOp) -> Seq<(Seq<char>, Seq<char>)> {
    match op {
        LeaseOp::Acquire(ms) => seq![("db"@, db), ("duration"@, decimal_text(ms as nat))],
        LeaseOp::Refresh(id, ms) => seq![
            ("db"@, db),
            ("id"@, id@),
            ("duration"@, decimal_text(ms as nat)),
        ],
    }
}

/// A pair of a key and a value.
pub fn pair(key: &str, value: &str) -> (r: (String, String))
    ensures
        r.0@ == key@,
        r.1@ == value@,
{
    (key.to_owned(), value.to_owned())
}

/// A client of the store.
pub struct Client {
    host: String,
    token: Option<String>,
    cluster: Option<String>,
    cluster_id: Option<String>,
    instance_id: Option<String>,
}

impl View for Client {
    type V = ClientState;

    closed spec fn view(&self) -> ClientState {
        ClientState {
            host: self.host@,
            token: text_of(self.token),
            cluster: text_of(self.cluster),
            cluster_id: text_of(self.cluster_id),
            instance_id: text_of(self.instance_id),
        }
    }
}

/// What a client is built from.
pub struct ClientBuilder {
    host: Option<String>,
    token: Option<String>,
    cluster: Option<String>,
}

impl ClientBuilder {
    /// The host that is set, if any.
    pub closed spec fn host_spec(&self) -> Option<Seq<char>> {
        text_of(self.host)
    }

    /// The token that is set, if any.
    pub closed spec fn token_spec(&self) -> Option<Seq<char>> {
        text_of(self.token)
    }

    /// The cluster that is set, if any.
    pub closed spec fn cluster_spec(&self) -> Option<Seq<char>> {
        text_of(self.cluster)
    }

    /// Sets the URL of the store.
    pub fn host(self, u: &str) -> (r: ClientBuilder)
        ensures
            r.host_spec() == Some(u@),
            r.token_spec() == self.token_spec(),
            r.cluster_spec() == self.cluster_spec(),
    {
        ClientBuilder { host: Some(u.to_owned()), token: self.token, cluster: self.cluster }
    }

    /// Sets the token that authorizes the client.
    pub fn token(self, token: &str) -> (r: ClientBuilder)
        ensures
            r.host_spec() == self.host_spec(),
            r.token_spec() == Some(token@),
            r.cluster_spec() == self.cluster_spec(),
    {
        ClientBuilder { host: self.host, token: Some(token.to_owned()), cluster: self.cluster }
    }

    /// Sets the cluster that the client works on.
    pub fn cluster(self, cluster: &str) -> (r: ClientBuilder)
        ensures
            r.host_spec() == self.host_spec(),
            r.token_spec() == self.token_spec(),
            r.cluster_spec() == Some(cluster@),
    {
        ClientBuilder { host: self.host, token: self.token, cluster: Some(cluster.to_owned()) }
    }

    /// The client: at the host that was set, or at the default host.
    pub fn build(self) -> (r: Client)
        ensures
            r@ == (ClientState {
                host: match self.host_spec() {
                    Some(h) => h,
                    None => default_host(),
                },
                token: self.token_spec(),
                cluster: self.cluster_spec(),
                cluster_id: None,
                instance_id: None,
            }),
    {
        Client {
            host: match self.host {
                Some(h) => h,
                None => String::from_str("https://litefs.fly.io"),
            },
            token: self.token,
            cluster: self.cluster,
            cluster_id: None,
            instance_id: None,
        }
    }
}

impl Client {
    /// A builder with nothing set.
    pub fn builder() -> (r: ClientBuilder)
        ensures
            r.host_spec() is None,
            r.token_spec() is None,
            r.cluster_spec() is None,
    {
        ClientBuilder { host: None, token: None, cluster: None }
    }

    /// The client that the environment describes: `token`, `cluster` and `host` are the
    /// values of the variables for the token, the cluster and the host, as far as they are
    /// set. The token is required and the host must be a URL. The client gets a cluster id
    /// of its own making.
    pub fn from_env(token: Option<&str>, cluster: Option<&str>, host: Option<&str>) -> (r: Result<
        Client,
        Error,
    >)
        ensures
            token is None ==> r matches Err(Error::Env(_)),
            token is Some && host is Some && url_parsed(host->0@) is None ==> r matches Err(
                Error::Env(_),
            ),
            token is Some && (host is Some ==> url_parsed(host->0@) is Some) ==> {
                &&& r matches Ok(c)
                &&& c@.token == Some(token->0@)
                &&& c@.cluster == (match cluster {
                    Some(x) => Some(x@),
                    None => None,
                })
                &&& c@.host == (match host {
                    Some(h) => url_parsed(h@)->0,
                    None => default_host(),
                })
                &&& c@.instance_id is None
                &&& exists|bytes: Seq<u8>|
                    bytes.len() == 8 && c@.cluster_id == Some(#[trigger] cluster_id_of(bytes))
            },
    {
        let builder = match token {
            Some(t) => Client::builder().token(t),
            None => return Err(
                Error::Env(String::from_str("LITEFS_CLOUD_TOKEN env var is not set")),
            ),
        };
        let builder = match cluster {
            Some(c) => builder.cluster(c),
            None => builder,
        };
        let builder = match host {
            Some(h) => match url_parse(h) {
                Some(u) => builder.host(u.as_str()),
                None => return Err(Error::Env(String::from_str("invalid host"))),
            },
            None => builder,
        };
        let mut client = builder.build();
        client.set_cluster_id(Client::generate_cluster_id());
        Ok(client)
    }

    /// Gives the client its cluster id.
    pub fn set_cluster_id(&mut self, id: String)
        ensures
            final(self)@ == (ClientState { cluster_id: Some(id@), ..old(self)@ }),
    {
        self.cluster_id = Some(id);
    }

    /// A new cluster id: the letters "LFSC" and sixteen hexadecimal digits of chance.
    pub fn generate_cluster_id() -> (r: String)
        ensures
            exists|bytes: Seq<u8>| bytes.len() == 8 && r@ == #[trigger] cluster_id_of(bytes),
    {
        let bytes = random_bytes();
        let r = Client::cluster_id_from(bytes.as_slice());
        proof {
            assert(r@ == cluster_id_of(bytes@));
        }
        r
    }

    /// The cluster id that is made of the bytes `bytes`.
    pub fn cluster_id_from(bytes: &[u8]) -> (r: String)
        ensures
            r@ == cluster_id_of(bytes@),
    {
        let mut r = String::from_str("LFSC");
        r.append(hex_encode_upper(bytes).as_str());
        r
    }

    /// Takes note of the instance of the store that has answered: later requests are
    /// routed to it. An answer that names none ends the routing.
    pub fn process_response(&mut self, instance_id: Option<&str>)
        ensures
            final(self)@ == (ClientState {
                instance_id: match instance_id {
                    Some(i) => Some(i@),
                    None => None,
                },
                ..old(self)@
            }),
    {
        let same = match (&self.instance_id, instance_id) {
            (Some(a), Some(b)) => str_eq(a.as_str(), b),
            (None, None) => true,
            _ => false,
        };
        if !same {
            self.instance_id = match instance_id {
                Some(i) => Some(i.to_owned()),
                None => None,
            };
        }
    }

    /// The request with the method `method` for the path `path` and the query `query`: the
    /// cluster joins the query, and the headers that every request carries are set. There
    /// is no request where the `url` crate does not take the host, the path or the query.
    pub fn make_request(&self, method: &str, path: &str, query: &Vec<(String, String)>) -> (r:
        Result<Request, Error>)
        ensures
            answers(r, request_for(self@, method@, path@, pair_texts(query@), Seq::empty())),
    {
        let mut url = url_set_path(self.host.as_str(), path);
        let mut i: usize = 0;
        while i < query.len()
            invariant
                i <= query@.len(),
                text_of(url) == url_with_pairs(
                    url_with_path(self@.host, path@),
                    pair_texts(query@).take(i as int),
                ),
            decreases query@.len() - i,
        {
            proof {
                let texts = pair_texts(query@);
                assert(texts.take(i + 1).drop_last() =~= texts.take(i as int));
                assert(texts.take(i + 1).last() == (query@[i as int].0@, query@[i as int].1@));
            }
            url = match url {
                Some(u) => url_append_pair(u.as_str(), query[i].0.as_str(), query[i].1.as_str()),
                None => None,
            };
            i += 1;
        }
        proof {
            assert(pair_texts(query@).take(i as int) =~= pair_texts(query@));
        }
        match &self.cluster {
            Some(c) => {
                proof {
                    let all = pair_texts(query@).push(("cluster"@, c@));
                    assert(all.drop_last() =~= pair_texts(query@));
                }
                url = match url {
                    Some(u) => url_append_pair(u.as_str(), "cluster", c.as_str()),
                    None => None,
                };
            },
            None => {},
        }
        let url = match url {
            Some(u) => u,
            None => return Err(Error::Env(String::from_str("invalid URL"))),
        };
        let mut headers: Vec<(String, String)> = Vec::new();
        match &self.token {
            Some(t) => {
                headers.push((String::from_str("Authorization"), t.clone()));
            },
            None => {},
        }
        proof {
            assert(pair_texts(headers@) =~= header("Authorization"@, self@.token));
        }
        let ghost h1 = pair_texts(headers@);
        match &self.instance_id {
            Some(i) => {
                headers.push((String::from_str("fly-force-instance-id"), i.clone()));
            },
            None => {},
        }
        proof {
            assert(pair_texts(headers@) =~= h1 + header(
                "fly-force-instance-id"@,
                self@.instance_id,
            ));
        }
        let ghost h2 = pair_texts(headers@);
        match &self.cluster_id {
            Some(c) => {
                headers.push((String::from_str("Litefs-Cluster-Id"), c.clone()));
            },
            None => {},
        }
        proof {
            assert(pair_texts(headers@) =~= h2 + header("Litefs-Cluster-Id"@, self@.cluster_id));
        }
        proof {
            assert(common_headers(self@) + Seq::<(Seq<char>, Seq<char>)>::empty() =~= common_headers(
                self@,
            ));
        }
        Ok(Request { method: method.to_owned(), url, headers })
    }

    /// The request for the positions of all databases that the store knows.
    pub fn pos_map(&self) -> (r: Result<Request, Error>)
        ensures
            answers(r, request_for(self@, "GET"@, "/pos"@, Seq::empty(), Seq::empty())),
    {
        let query: Vec<(String, String)> = Vec::new();
        proof {
            assert(pair_texts(query@) =~= Seq::empty());
        }
        self.make_request("GET", "/pos", &query)
    }

    /// The request that identifies the cluster.
    pub fn info(&self) -> (r: Result<Request, Error>)
        ensures
            answers(r, request_for(self@, "GET"@, "/info"@, Seq::empty(), Seq::empty())),
    {
        let query: Vec<(String, String)> = Vec::new();
        proof {
            assert(pair_texts(query@) =~= Seq::empty());
        }
        self.make_request("GET", "/info", &query)
    }

    /// The request for the change sets of many databases; its body names their positions.
    pub fn sync(&self) -> (r: Result<Request, Error>)
        ensures
            answers(r, request_for(self@, "POST"@, "/sync"@, Seq::empty(), Seq::empty())),
    {
        let query: Vec<(String, String)> = Vec::new();
        proof {
            assert(pair_texts(query@) =~= Seq::empty());
        }
        self.make_request("POST", "/sync", &query)
    }

    /// The request that submits a transaction file of `ltx_len` bytes for the database
    /// `db` under the lease `lease`.
    pub fn write_tx(&self, db: &str, ltx_len: u64, lease: &str) -> (r: Result<Request, Error>)
        ensures
            answers(
                r,
                request_for(
                    self@,
                    "POST"@,
                    "/db/tx"@,
                    seq![("db"@, db@)],
                    seq![
                        ("Content-Length"@, decimal_text(ltx_len as nat)),
                        ("Lfsc-Lease-Id"@, lease@),
                    ],
                ),
            ),
    {
        let mut query: Vec<(String, String)> = Vec::new();
        query.push(pair("db", db));
        proof {
            assert(pair_texts(query@) =~= seq![("db"@, db@)]);
        }
        match self.make_request("POST", "/db/tx", &query) {
            Ok(req) => {
                let Request { method, url, headers } = req;
                let mut headers = headers;
                let ghost h0 = pair_texts(headers@);
                headers.push(pair("Content-Length", to_decimal(ltx_len).as_str()));
                headers.push(pair("Lfsc-Lease-Id", lease));
                proof {
                    assert(pair_texts(headers@) =~= h0 + seq![
                        ("Content-Length"@, decimal_text(ltx_len as nat)),
                        ("Lfsc-Lease-Id"@, lease@),
                    ]);
                    assert(h0 =~= common_headers(self@) + Seq::<(Seq<char>, Seq<char>)>::empty());
                }
                Ok(Request { method, url, headers })
            },
            Err(e) => Err(e),
        }
    }

    /// The request for the pages `pgnos` of the database `db` at the position `pos`.
    pub fn get_pages(&self, db: &str, pos: &Pos, pgnos: &Vec<PageNum>) -> (r: Result<Request, Error>)
        ensures
            answers(
                r,
                request_for(
                    self@,
                    "GET"@,
                    "/db/page"@,
                    seq![
                        ("db"@, db@),
                        ("pos"@, pos_text(*pos)),
                        ("pgno"@, joined(page_texts(pgnos@), ","@)),
                    ],
                    Seq::empty(),
                ),
            ),
    {
        let mut query: Vec<(String, String)> = Vec::new();
        query.push(pair("db", db));
        query.push(pair("pos", pos_to_string(pos).as_str()));
        query.push(pair("pgno", pgnos_to_string(pgnos).as_str()));
        proof {
            assert(pair_texts(query@) =~= seq![
                ("db"@, db@),
                ("pos"@, pos_text(*pos)),
                ("pgno"@, joined(page_texts(pgnos@), ","@)),
            ]);
        }
        self.make_request("GET", "/db/page", &query)
    }

    /// The request for the change set of the database `db` since the position `pos`.
    pub fn sync_db(&self, db: &str, pos: &Option<Pos>) -> (r: Result<Request, Error>)
        ensures
            answers(
                r,
                request_for(
                    self@,
                    "GET"@,
                    "/db/sync"@,
                    match *pos {
                        Some(p) => seq![("db"@, db@), ("pos"@, pos_text(p))],
                        None => seq![("db"@, db@)],
                    },
                    Seq::empty(),
                ),
            ),
    {
        let mut query: Vec<(String, String)> = Vec::new();
        query.push(pair("db", db));
        match pos {
            Some(p) => {
                query.push(pair("pos", pos_to_string(p).as_str()));
                proof {
                    assert(pair_texts(query@) =~= seq![("db"@, db@), ("pos"@, pos_text(*p))]);
                }
            },
            None => {
                proof {
                    assert(pair_texts(query@) =~= seq![("db"@, db@)]);
                }
            },
        }
        self.make_request("GET", "/db/sync", &query)
    }

    /// The request that acquires or refreshes a lease for the database `db`.
    pub fn acquire_lease(&self, db: &str, op: &LeaseOp) -> (r: Result<Request, Error>)
        ensures
            answers(
                r,
                request_for(self@, "POST"@, "/lease"@, lease_query(db@, *op), Seq::empty()),
            ),
    {
        let mut query: Vec<(String, String)> = Vec::new();
        query.push(pair("db", db));
        match op {
            LeaseOp::Acquire(ms) => {
                query.push(pair("duration", to_decimal(*ms).as_str()));
                proof {
                    assert(pair_texts(query@) =~= lease_query(db@, *op));
                }
            },
            LeaseOp::Refresh(id, ms) => {
                query.push(pair("id", id.as_str()));
                query.push(pair("duration", to_decimal(*ms).as_str()));
                proof {
                    assert(pair_texts(query@) =~= lease_query(db@, *op));
                }
            },
        }
        self.make_request("POST", "/lease", &query)
    }

    /// The request that releases the lease `id` of the database `db`.
    pub fn release_lease(&self, db: &str, id: &str) -> (r: Result<Request, Error>)
        ensures
            answers(
                r,
                request_for(
                    self@,
                    "DELETE"@,
                    "/lease"@,
                    seq![("db"@, db@), ("id"@, id@)],
                    Seq::empty(),
                ),
            ),
    {
        let mut query: Vec<(String, String)> = Vec::new();
        query.push(pair("db", db));
        query.push(pair("id", id));
        proof {
            assert(pair_texts(query@) =~= seq![("db"@, db@), ("id"@, id@)]);
        }
        self.make_request("DELETE", "/lease", &query)
    }
}

} // verus!
