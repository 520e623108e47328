//! Where MindNProgress is reached, and where the token for it lies.

use vstd::prelude::*;
use vstd::string::*;

use crate::navigation_error::MindNProgressNavigationError;
use crate::text;

verus! {

/// The name under which the tool server of MindNProgress is known.
pub const MINDNPROGRESS_MCP_NAME: &'static str = "MindNProgress";

/// Where MindNProgress is reached if nothing else is set.
pub const DEFAULT_MNP_API_URL: &'static str = "http://127.0.0.1:4176";

/// The file that holds the token.
pub const INTEGRATION_TOKEN_FILENAME: &'static str = "_integration-token";

/// What a URL is made of.
#[derive(Debug)]
pub struct UrlParts {
    /// The scheme.
    pub scheme: String,
    /// The host, if there is one.
    pub host: Option<String>,
    /// The user name, which may be empty.
    pub username: String,
    /// Whether there is a password.
    pub has_password: bool,
    /// Whether there is a query.
    pub has_query: bool,
    /// Whether there is a fragment.
    pub has_fragment: bool,
    /// The path.
    pub path: String,
    /// The port, or the scheme's own where none is given.
    pub port: Option<u16>,
    /// The URL as a text.
    pub text: String,
}

/// What a URL is made of, as values.
pub struct UrlView {
    /// The scheme.
    pub scheme: Seq<char>,
    /// The host, if there is one.
    pub host: Option<Seq<char>>,
    /// The user name, which may be empty.
    pub username: Seq<char>,
    /// Whether there is a password.
    pub has_password: bool,
    /// Whether there is a query.
    pub has_query: bool,
    /// Whether there is a fragment.
    pub has_fragment: bool,
    /// The path.
    pub path: Seq<char>,
    /// The port, or the scheme's own where none is given.
    pub port: Option<u16>,
    /// The URL as a text.
    pub text: Seq<char>,
}

impl View for UrlParts {
    type V = UrlView;

    open spec fn view(&self) -> UrlView {
        UrlView {
            scheme: self.scheme@,
            host: text::opt_text(self.host),
            username: self.username@,
            has_password: self.has_password,
            has_query: self.has_query,
            has_fragment: self.has_fragment,
            path: self.path@,
            port: self.port,
            text: self.text@,
        }
    }
}

/// What url reads a text as, if it is a URL.
pub uninterp spec fn parsed_url(value: Seq<char>) -> Option<UrlView>;

/// What url makes of a URL when the segments of its path are replaced, if it has such a path.
pub uninterp spec fn url_with_segments(base: Seq<char>, segments: Seq<Seq<char>>) -> Option<
    Seq<char>,
>;

/// The URL of a port on this machine, with the port written out.
pub open spec fn written_loopback_url(port: u16) -> Seq<char> {
    "http://127.0.0.1:"@ + text::decimal(port as nat) + "/"@
}

/// The URL of a port on this machine. The port that the scheme has anyway is left out.
pub open spec fn loopback_url(port: u16) -> Seq<char> {
    if port == 80 {
        "http://127.0.0.1/"@
    } else {
        written_loopback_url(port)
    }
}

/// Whether a text is the URL of a port on this machine.
pub open spec fn is_loopback_url(url: Seq<char>) -> bool {
    exists|port: u16| url == #[trigger] loopback_url(port)
}

/// What the URL of a port on this machine is made of.
pub open spec fn loopback_view(port: u16) -> UrlView {
    UrlView {
        scheme: "http"@,
        host: Some("127.0.0.1"@),
        username: Seq::empty(),
        has_password: false,
        has_query: false,
        has_fragment: false,
        path: "/"@,
        port: Some(port),
        text: loopback_url(port),
    }
}

/// `Url::parse` of url, and what the URL is made of: the parts depend on the text alone. An
/// `http` URL always has a port, its own or 80. The URL of a port on this machine is read as that,
/// and written again as it stands but for the port 80, which is left out; what is written is read
/// as the same URL. How other texts are read is not stated.
#[verifier::external_body]
fn parse_url(value: &str) -> (parts: Option<UrlParts>)
    ensures
        parts matches Some(parts) ==> parsed_url(value@) == Some(parts@),
        parts is None ==> parsed_url(value@) is None,
        parts matches Some(parts) ==> parts.scheme@ == "http"@ ==> parts.port is Some,
        forall|port: u16| #[trigger]
            written_loopback_url(port) == value@ ==> (parts matches Some(parts) && parts@
                == loopback_view(port) && parsed_url(parts.text@) == Some(parts@)),
{
    let url = reqwest::Url::parse(value).ok()?;
    Some(UrlParts {
        scheme: url.scheme().to_owned(),
        host: url.host_str().map(str::to_owned),
        username: url.username().to_owned(),
        has_password: url.password().is_some(),
        has_query: url.query().is_some(),
        has_fragment: url.fragment().is_some(),
        path: url.path().to_owned(),
        port: url.port_or_known_default(),
        text: url.into(),
    })
}

/// Whether a segment of a path needs no encoding: it has letters, digits, `-` and `_` alone.
pub open spec fn is_plain_segment(segment: Seq<char>) -> bool {
    segment.len() > 0 && forall|i: int|
        0 <= i < segment.len() ==> {
            let c = #[trigger] segment[i];
            ||| 'a' <= c <= 'z'
            ||| 'A' <= c <= 'Z'
            ||| '0' <= c <= '9'
            ||| c == '-' || c == '_'
        }
}

/// Whether a segment of a path is taken as a whole: it is not empty, does not stand for a directory
/// relative to another, and has none of the characters that url drops.
pub open spec fn is_kept_segment(segment: Seq<char>) -> bool {
    &&& segment.len() > 0
    &&& segment != "."@
    &&& segment != ".."@
    &&& !segment.contains('\t')
    &&& !segment.contains('\n')
    &&& !segment.contains('\r')
}

/// Whether a text can be the encoding of a segment: nothing in it ends the segment or the path,
/// and what needs no encoding is not changed.
pub open spec fn is_segment_encoding(encoded: Seq<char>, segment: Seq<char>) -> bool {
    &&& encoded.len() > 0
    &&& !encoded.contains('/')
    &&& !encoded.contains('?')
    &&& !encoded.contains('#')
    &&& is_plain_segment(segment) ==> encoded == segment
}

/// Whether texts can be the encodings of segments, one for each.
pub open spec fn are_segment_encodings(encoded: Seq<Seq<char>>, segments: Seq<Seq<char>>) -> bool {
    &&& encoded.len() == segments.len()
    &&& forall|i: int|
        0 <= i < segments.len() ==> is_segment_encoding(#[trigger] encoded[i], segments[i])
}

/// Whether a URL has the encodings of segments below `base`, one after the other.
pub open spec fn has_segments(url: Seq<char>, base: Seq<char>, segments: Seq<Seq<char>>) -> bool {
    exists|encoded: Seq<Seq<char>>| #[trigger]
        are_segment_encodings(encoded, segments) && url == base + text::joined(encoded, "/"@)
}

/// Whether a URL goes to a path below `base`, without a query or a fragment.
pub open spec fn goes_below(url: Seq<char>, base: Seq<char>) -> bool {
    &&& text::begins_with(url, base)
    &&& !url.skip(base.len() as int).contains('?')
    &&& !url.skip(base.len() as int).contains('#')
}

/// `PathSegmentsMut::clear` and `PathSegmentsMut::extend` of url, on the URL of a port on this
/// machine: the result depends on the URL and the segments alone, and goes to a path on the same
/// port of this machine. Where every segment is taken as a whole, the path has an encoding of each,
/// which adds no further segment, query or fragment. How characters are encoded, and what becomes
/// of other segments, is not stated. No byte of a segment takes more than three in the result,
/// which url limits in size.
#[verifier::external_body]
fn replace_url_segments(base: &str, segments: &Vec<String>) -> (url: Option<String>)
    requires
        is_loopback_url(base@),
        text::byte_len(base@) + 3 * text::byte_len(text::joined(text::texts(segments@), "/"@))
            <= u32::MAX,
    ensures
        text::opt_text(url) == url_with_segments(base@, text::texts(segments@)),
        url matches Some(url) && goes_below(url@, base@),
        (forall|i: int| 0 <= i < segments@.len() ==> is_kept_segment(#[trigger] segments@[i]@))
            ==> (url matches Some(url) && has_segments(url@, base@, text::texts(segments@))),
{
    let mut url = reqwest::Url::parse(base).ok()?;
    url.path_segments_mut().ok()?.clear().extend(segments);
    Some(url.into())
}

/// Whether a URL stands for a port on this machine, and for nothing else.
pub open spec fn is_loopback_origin(url: UrlView) -> bool {
    &&& url.scheme == "http"@
    &&& url.host == Some("127.0.0.1"@) || url.host == Some("localhost"@) || url.host == Some(
        "::1"@,
    )
    &&& url.username.len() == 0
    &&& !url.has_password
    &&& !url.has_query
    &&& !url.has_fragment
    &&& url.path == "/"@
}

/// The port on this machine that a URL stands for, if it stands for nothing else.
pub open spec fn loopback_port(url: Option<UrlView>) -> Option<u16> {
    match url {
        Some(url) => if is_loopback_origin(url) {
            url.port
        } else {
            None
        },
        None => None,
    }
}

/// The port on this machine that a URL stands for, if it stands for nothing else.
pub fn url_loopback_port(url: &UrlParts) -> (port: Option<u16>)
    ensures
        port == loopback_port(Some(url@)),
{
    let loopback_host: bool = text::is_text(&url.host, "127.0.0.1") || text::is_text(
        &url.host,
        "localhost",
    ) || text::is_text(&url.host, "::1");
    if !text::same(url.scheme.as_str(), "http") || !loopback_host || !url.username.as_str().is_empty()
        || url.has_password || url.has_query || url.has_fragment || !text::same(
        url.path.as_str(),
        "/",
    ) {
        return None;
    }
    url.port
}

/// The URL of the port on this machine that a text stands for, if it stands for nothing else.
pub open spec fn normalized_url(value: Seq<char>) -> Option<Seq<char>> {
    match loopback_port(parsed_url(value)) {
        Some(port) => Some(loopback_url(port)),
        None => None,
    }
}

/// The URL of the port on this machine that a text stands for. A text that stands for anything
/// else is refused. The URL stands for itself: taken again, it comes out as it is.
pub fn normalize_loopback_api_url(value: &str) -> (url: Result<String, MindNProgressNavigationError>)
    ensures
        match loopback_port(parsed_url(value@)) {
            Some(port) => url matches Ok(url) && url@ == loopback_url(port) && parsed_url(url@)
                == Some(loopback_view(port)),
            None => url matches Err(error) && error is NotConfigured,
        },
        parsed_url(value@) matches Some(parts) ==> parts.scheme == "http"@ ==> parts.port is Some,
        url is Ok <==> (parsed_url(value@) matches Some(parts) && is_loopback_origin(parts)),
        url matches Ok(url) ==> normalized_url(value@) == Some(url@) && normalized_url(url@)
            == Some(url@),
{
    let configured: UrlParts = match parse_url(value) {
        Some(configured) => configured,
        None => {
            return Err(MindNProgressNavigationError::NotConfigured);
        },
    };
    let port: u16 = match url_loopback_port(&configured) {
        Some(port) => port,
        None => {
            return Err(MindNProgressNavigationError::NotConfigured);
        },
    };
    let mut written: String = "http://127.0.0.1:".to_owned();
    text::append_decimal(&mut written, port as u64);
    written.append("/");
    assert(written@ == written_loopback_url(port));
    match parse_url(written.as_str()) {
        Some(url) => Ok(url.text),
        None => Err(MindNProgressNavigationError::NotConfigured),
    }
}

/// How a tool server that is run as a program is started.
#[derive(Debug)]
pub struct StdioTransportConfig {
    args: Vec<String>,
    env: Vec<(String, String)>,
}

/// The value that goes with a name, if there is one.
pub open spec fn value_of(pairs: Seq<(String, String)>, name: Seq<char>) -> Option<Seq<char>>
    decreases pairs.len(),
{
    if pairs.len() == 0 {
        None
    } else if pairs[0].0@ == name {
        Some(pairs[0].1@)
    } else {
        value_of(pairs.drop_first(), name)
    }
}

proof fn lemma_value_at(pairs: Seq<(String, String)>, name: Seq<char>, i: int)
    requires
        0 <= i < pairs.len(),
        pairs[i].0@ == name,
        forall|j: int| 0 <= j < i ==> (#[trigger] pairs[j]).0@ != name,
    ensures
        value_of(pairs, name) == Some(pairs[i].1@),
    decreases pairs.len(),
{
    if i > 0 {
        assert(pairs[0].0@ != name);
        assert forall|j: int| 0 <= j < i - 1 implies (#[trigger] pairs.drop_first()[j]).0@
            != name by {
            assert(pairs[j + 1].0@ != name);
        }
        lemma_value_at(pairs.drop_first(), name, i - 1);
    }
}

proof fn lemma_no_value(pairs: Seq<(String, String)>, name: Seq<char>)
    requires
        forall|j: int| 0 <= j < pairs.len() ==> (#[trigger] pairs[j]).0@ != name,
    ensures
        value_of(pairs, name) is None,
    decreases pairs.len(),
{
    if pairs.len() > 0 {
        assert(pairs[0].0@ != name);
        assert forall|j: int| 0 <= j < pairs.len() - 1 implies (#[trigger] pairs.drop_first()[j]).0@
            != name by {
            assert(pairs[j + 1].0@ != name);
        }
        lemma_no_value(pairs.drop_first(), name);
    }
}

proof fn lemma_value_of_push(pairs: Seq<(String, String)>, pair: (String, String), name: Seq<char>)
    ensures
        value_of(pairs.push(pair), name) == (match value_of(pairs, name) {
            Some(value) => Some(value),
            None => if pair.0@ == name {
                Some(pair.1@)
            } else {
                None
            },
        }),
    decreases pairs.len(),
{
    if pairs.len() == 0 {
        reveal_with_fuel(value_of, 2);
    } else {
        assert(pairs.push(pair).drop_first() =~= pairs.drop_first().push(pair));
        lemma_value_of_push(pairs.drop_first(), pair, name);
    }
}

proof fn lemma_value_of_update(
    pairs: Seq<(String, String)>,
    i: int,
    pair: (String, String),
    name: Seq<char>,
)
    requires
        0 <= i < pairs.len(),
        pairs[i].0@ == pair.0@,
        name != pair.0@,
    ensures
        value_of(pairs.update(i, pair), name) == value_of(pairs, name),
    decreases pairs.len(),
{
    if i == 0 {
        assert(pairs.update(i, pair).drop_first() =~= pairs.drop_first());
    } else {
        assert(pairs.update(i, pair).drop_first() =~= pairs.drop_first().update(i - 1, pair));
        lemma_value_of_update(pairs.drop_first(), i - 1, pair, name);
    }
}

fn find_pair(pairs: &Vec<(String, String)>, name: &str) -> (found: Option<usize>)
    ensures
        match found {
            Some(i) => i < pairs@.len() && pairs@[i as int].0@ == name@ && forall|j: int|
                0 <= j < i ==> (#[trigger] pairs@[j]).0@ != name@,
            None => forall|j: int| 0 <= j < pairs@.len() ==> (#[trigger] pairs@[j]).0@ != name@,
        },
{
    let mut i: usize = 0;
    while i < pairs.len()
        invariant
            i <= pairs@.len(),
            forall|j: int| 0 <= j < i ==> (#[trigger] pairs@[j]).0@ != name@,
        decreases pairs@.len() - i,
    {
        if text::same(pairs[i].0.as_str(), name) {
            return Some(i);
        }
        i += 1;
    }
    None
}

impl StdioTransportConfig {
    /// The arguments that the program gets.
    pub closed spec fn spec_args(self) -> Seq<Seq<char>> {
        text::texts(self.args@)
    }

    /// What a variable is set to for the program, if it is.
    pub closed spec fn spec_env(self, name: Seq<char>) -> Option<Seq<char>> {
        value_of(self.env@, name)
    }

    /// No variable is set twice.
    #[verifier::type_invariant]
    spec fn names_differ(self) -> bool {
        forall|i: int, j: int|
            0 <= i < j < self.env@.len() ==> (#[trigger] self.env@[i]).0@ != (
            #[trigger] self.env@[j]).0@
    }

    /// A program with these arguments, and no variables set for it.
    pub fn new(args: Vec<String>) -> (transport: Self)
        ensures
            transport.spec_args() == text::texts(args@),
            forall|name: Seq<char>| #[trigger] transport.spec_env(name) is None,
    {
        StdioTransportConfig { args, env: Vec::new() }
    }

    /// The same program with a variable set for it. What it was set to before is forgotten.
    pub fn with_env(self, name: String, value: String) -> (transport: Self)
        ensures
            transport.spec_args() == self.spec_args(),
            forall|other: Seq<char>| #[trigger]
                transport.spec_env(other) == if other == name@ {
                    Some(value@)
                } else {
                    self.spec_env(other)
                },
    {
        proof {
            use_type_invariant(&self);
        }
        let args = self.args;
        let mut env = self.env;
        match find_pair(&env, name.as_str()) {
            Some(i) => {
                proof {
                    let pair = (name, value);
                    lemma_value_at(env@.update(i as int, pair), name@, i as int);
                    assert forall|other: Seq<char>| other != name@ implies value_of(
                        env@.update(i as int, pair),
                        other,
                    ) == #[trigger] value_of(env@, other) by {
                        lemma_value_of_update(env@, i as int, pair, other);
                    }
                }
                env.set(i, (name, value));
            },
            None => {
                proof {
                    lemma_no_value(env@, name@);
                    assert forall|other: Seq<char>|
                        value_of(env@.push((name, value)), other) == if other == name@ {
                            Some(value@)
                        } else {
                            #[trigger] value_of(env@, other)
                        } by {
                        lemma_value_of_push(env@, (name, value), other);
                    }
                }
                env.push((name, value));
            },
        }
        StdioTransportConfig { args, env }
    }
}

/// What the process itself has in its environment.
#[derive(Debug)]
pub struct ProcessSettings {
    /// What `MNP_TOKEN_FILE` is set to.
    pub token_file: Option<String>,
    /// What `MNP_DATA_DIR` is set to.
    pub data_dir: Option<String>,
    /// What `MNP_API_URL` is set to.
    pub api_url: Option<String>,
}

/// What a setting comes to: what is set for the tool server counts before what the process has,
/// and a blank value counts as none.
pub open spec fn setting(transport: Option<Seq<char>>, process: Option<Seq<char>>) -> Option<
    Seq<char>,
> {
    let value = if transport is Some {
        transport
    } else {
        process
    };
    match value {
        Some(value) => if text::blank(value) {
            None
        } else {
            Some(value)
        },
        None => None,
    }
}

/// What a setting comes to, given what the process has for it.
pub fn backend_setting(transport: &StdioTransportConfig, name: &str, process: &Option<String>) -> (
    value: Option<String>)
    ensures
        text::opt_text(value) == setting(transport.spec_env(name@), text::opt_text(*process)),
{
    let value: &String = match find_pair(&transport.env, name) {
        Some(i) => {
            proof {
                lemma_value_at(transport.env@, name@, i as int);
            }
            &transport.env[i].1
        },
        None => {
            proof {
                lemma_no_value(transport.env@, name@);
            }
            match process {
                Some(value) => value,
                None => {
                    return None;
                },
            }
        },
    };
    if text::is_blank(value.as_str()) {
        None
    } else {
        Some(value.clone())
    }
}

/// What the settings come to.
#[derive(Debug)]
pub struct BackendSettings {
    /// The file that holds the token.
    pub token_file: Option<String>,
    /// The directory that holds the file with the token.
    pub data_dir: Option<String>,
    /// Where MindNProgress is reached.
    pub api_url: Option<String>,
}

/// Whether these are the settings for a tool server.
pub open spec fn are_settings(
    settings: BackendSettings,
    transport: StdioTransportConfig,
    process: ProcessSettings,
) -> bool {
    &&& text::opt_text(settings.token_file) == setting(
        transport.spec_env("MNP_TOKEN_FILE"@),
        text::opt_text(process.token_file),
    )
    &&& text::opt_text(settings.data_dir) == setting(
        transport.spec_env("MNP_DATA_DIR"@),
        text::opt_text(process.data_dir),
    )
    &&& text::opt_text(settings.api_url) == setting(
        transport.spec_env("MNP_API_URL"@),
        text::opt_text(process.api_url),
    )
}

/// What the settings for a tool server come to.
pub fn backend_settings(transport: &StdioTransportConfig, process: &ProcessSettings) -> (settings:
    BackendSettings)
    ensures
        are_settings(settings, *transport, *process),
{
    BackendSettings {
        token_file: backend_setting(transport, "MNP_TOKEN_FILE", &process.token_file),
        data_dir: backend_setting(transport, "MNP_DATA_DIR", &process.data_dir),
        api_url: backend_setting(transport, "MNP_API_URL", &process.api_url),
    }
}

/// How the platform takes a text as a path.
#[derive(Debug)]
pub struct PathShape {
    /// Whether the path does not depend on a current directory.
    pub absolute: bool,
    /// The last name in it.
    pub file_name: Option<String>,
    /// The last name but one.
    pub parent_name: Option<String>,
    /// The path without its last two names.
    pub grandparent: Option<String>,
}

/// Whether a text holds another one.
pub open spec fn holds_text(whole: Seq<char>, part: Seq<char>) -> bool {
    exists|i: int|
        0 <= i <= whole.len() - part.len() && #[trigger] whole.subrange(i, i + part.len()) == part
}

/// Whether a text is one name in a path on every platform: it has no character that may separate
/// names or mark a drive.
pub open spec fn is_path_name(name: Seq<char>) -> bool {
    &&& name.len() > 0
    &&& !name.contains('/')
    &&& !name.contains('\\')
    &&& !name.contains(':')
}

/// Whether texts are the names that a path is made of on every platform. `.` is one only where a
/// path without a root begins with it.
pub open spec fn are_path_names(rooted: bool, names: Seq<Seq<char>>) -> bool {
    &&& forall|i: int| 0 <= i < names.len() ==> is_path_name(#[trigger] names[i])
    &&& forall|i: int|
        0 <= i < names.len() && (#[trigger] names[i]) == "."@ ==> i == 0 && !rooted
}

/// The path that is made of names, from the root or from a current directory.
pub open spec fn path_text(rooted: bool, names: Seq<Seq<char>>) -> Seq<char> {
    if rooted {
        "/"@ + text::joined(names, "/"@)
    } else {
        text::joined(names, "/"@)
    }
}

/// Whether a path is made of names, with `/` between them.
pub open spec fn is_made_of(path: Seq<char>, rooted: bool, names: Seq<Seq<char>>) -> bool {
    are_path_names(rooted, names) && path == path_text(rooted, names)
}

/// The last of some names, if there is one and it does not stand for a directory relative to
/// another.
pub open spec fn last_name(names: Seq<Seq<char>>) -> Option<Seq<char>> {
    if names.len() == 0 || names.last() == "."@ || names.last() == ".."@ {
        None
    } else {
        Some(names.last())
    }
}

/// The path that is made of names but for the last one, if there is one.
pub open spec fn path_without_last(rooted: bool, names: Seq<Seq<char>>) -> Option<Seq<char>> {
    if names.len() == 0 {
        None
    } else {
        Some(path_text(rooted, names.drop_last()))
    }
}

/// Whether a path may be absolute on some platform: it begins with a character that separates names
/// there, or marks a drive.
pub open spec fn may_be_absolute(path: Seq<char>) -> bool {
    path.len() > 0 && (path[0] == '/' || path[0] == '\\' || path.contains(':'))
}

/// Whether a path means the same on every platform: only `/` separates names in it, and it does
/// not begin with two of them, as the name of a network share does.
pub open spec fn is_portable(path: Seq<char>) -> bool {
    &&& !path.contains('\\')
    &&& !path.contains(':')
    &&& !(path.len() > 1 && path[0] == '/' && path[1] == '/')
}

/// Whether a text has a character that no path has without a name: one that is neither `/` nor
/// `.`.
pub open spec fn has_name_char(text: Seq<char>) -> bool {
    exists|i: int| 0 <= i < text.len() && (#[trigger] text[i]) != '/' && text[i] != '.'
}

/// Whether this is the shape of the path that is made of names. Without a root it is not absolute;
/// with one the platform decides.
pub open spec fn is_shape_of_names(shape: PathShape, rooted: bool, names: Seq<Seq<char>>) -> bool {
    &&& shape.absolute ==> rooted
    &&& text::opt_text(shape.file_name) == last_name(names)
    &&& text::opt_text(shape.parent_name) == if names.len() == 0 {
        None
    } else {
        last_name(names.drop_last())
    }
    &&& text::opt_text(shape.grandparent) == if names.len() == 0 {
        None
    } else {
        path_without_last(rooted, names.drop_last())
    }
}

/// What holds of the shape of a path on every platform: the names are taken from the path, and
/// the path without its last names is where it begins. Where the path is made of names with `/`
/// between them, the names are those.
pub open spec fn is_shape(shape: PathShape, path: Seq<char>) -> bool {
    &&& shape.absolute ==> may_be_absolute(path)
    &&& shape.file_name matches Some(name) ==> holds_text(path, name@)
    &&& shape.parent_name matches Some(name) ==> holds_text(path, name@)
    &&& shape.grandparent matches Some(dir) ==> text::begins_with(path, dir@)
    &&& is_portable(path) && shape.parent_name is Some && has_name_char(shape.parent_name->0@)
        ==> shape.grandparent is Some
    &&& forall|rooted: bool, names: Seq<Seq<char>>| #[trigger]
        is_made_of(path, rooted, names) ==> is_shape_of_names(shape, rooted, names)
}

proof fn lemma_holds_text(whole: Seq<char>, start: Seq<char>, part: Seq<char>)
    requires
        text::begins_with(whole, start),
        holds_text(start, part),
    ensures
        holds_text(whole, part),
{
    let i = choose|i: int|
        0 <= i <= start.len() - part.len() && #[trigger] start.subrange(i, i + part.len()) == part;
    assert(whole.subrange(i, i + part.len()) =~= whole.take(start.len() as int).subrange(
        i,
        i + part.len(),
    ));
}

proof fn lemma_portable_start(path: Seq<char>, start: Seq<char>)
    requires
        is_portable(path),
        text::begins_with(path, start),
    ensures
        is_portable(start),
{
    assert forall|i: int| 0 <= i < start.len() implies (#[trigger] start[i]) != '\\' && start[i]
        != ':' by {
        assert(path.take(start.len() as int)[i] == path[i]);
        assert(path.contains(path[i]));
    }
    if start.len() > 1 {
        assert(path.take(start.len() as int)[0] == path[0]);
        assert(path.take(start.len() as int)[1] == path[1]);
    }
}

proof fn lemma_holds_name_char(whole: Seq<char>, part: Seq<char>)
    requires
        holds_text(whole, part),
        has_name_char(part),
    ensures
        has_name_char(whole),
{
    let from = choose|i: int|
        0 <= i <= whole.len() - part.len() && #[trigger] whole.subrange(i, i + part.len()) == part;
    let i = choose|i: int| 0 <= i < part.len() && (#[trigger] part[i]) != '/' && part[i] != '.';
    assert(whole.subrange(from, from + part.len())[i] == whole[from + i]);
}

proof fn lemma_begins_with_transitive(whole: Seq<char>, start: Seq<char>, prefix: Seq<char>)
    requires
        text::begins_with(whole, start),
        text::begins_with(start, prefix),
    ensures
        text::begins_with(whole, prefix),
{
    assert(whole.take(prefix.len() as int) =~= whole.take(start.len() as int).take(
        prefix.len() as int,
    ));
}

/// `Path::is_absolute` of std. Which paths are absolute depends on the platform: on Unix those that
/// begin with the root, on Windows those that have a drive or another prefix and a root.
#[verifier::external_body]
fn path_is_absolute(path: &str) -> (absolute: bool)
    ensures
        absolute ==> may_be_absolute(path@),
{
    std::path::Path::new(path).is_absolute()
}

/// `Path::file_name` of std, as a text: the last component of the path, if it has one that is a
/// name. Where a component begins depends on the platform, but `/` separates them on Unix and on
/// Windows, so that a path which is made of names has the last of them, unless that is `.` or `..`.
#[verifier::external_body]
fn path_file_name(path: &str) -> (name: Option<String>)
    ensures
        name matches Some(name) ==> holds_text(path@, name@),
        forall|rooted: bool, names: Seq<Seq<char>>| #[trigger]
            is_made_of(path@, rooted, names) ==> text::opt_text(name) == last_name(names),
{
    let name = std::path::Path::new(path).file_name()?;
    name.to_str().map(str::to_owned)
}

/// `Path::parent` of std, as a text: the path without its last component, if it has one. Where a
/// component begins depends on the platform, but `/` separates them on Unix and on Windows, so that
/// a path which is made of names loses the last of them, and has no parent where there is none. A
/// path that means the same on every platform has a parent unless it is empty or ends in the root,
/// which it does not if there is a name in it.
#[verifier::external_body]
fn path_parent(path: &str) -> (parent: Option<String>)
    ensures
        parent matches Some(parent) ==> text::begins_with(path@, parent@),
        is_portable(path@) && has_name_char(path@) ==> parent is Some,
        forall|rooted: bool, names: Seq<Seq<char>>| #[trigger]
            is_made_of(path@, rooted, names) ==> text::opt_text(parent) == path_without_last(
                rooted,
                names,
            ),
{
    let parent = std::path::Path::new(path).parent()?;
    parent.to_str().map(str::to_owned)
}

/// Whether the platform can answer by `absolute` whether a path is absolute.
pub closed spec fn can_be_absolute(path: Seq<char>, absolute: bool) -> bool {
    exists|asked: &str| asked@ == path && #[trigger] call_ensures(
        path_is_absolute,
        (asked,),
        absolute,
    )
}

/// Whether the platform can take `name` as the last name of a path.
pub closed spec fn can_have_name(path: Seq<char>, name: Option<Seq<char>>) -> bool {
    exists|asked: &str, answer: Option<String>|
        asked@ == path && text::opt_text(answer) == name && #[trigger] call_ensures(
            path_file_name,
            (asked,),
            answer,
        )
}

/// Whether the platform can take `parent` as the path without its last name.
pub closed spec fn can_have_parent(path: Seq<char>, parent: Option<Seq<char>>) -> bool {
    exists|asked: &str, answer: Option<String>|
        asked@ == path && text::opt_text(answer) == parent && #[trigger] call_ensures(
            path_parent,
            (asked,),
            answer,
        )
}

/// Whether a shape holds what the platform answered when it was asked about a path: whether the
/// path is absolute, its last name, its parent, and the last name and the parent of that.
pub open spec fn is_platform_shape(shape: PathShape, path: Seq<char>) -> bool {
    &&& can_be_absolute(path, shape.absolute)
    &&& can_have_name(path, text::opt_text(shape.file_name))
    &&& exists|parent: Option<Seq<char>>| #[trigger]
        can_have_parent(path, parent) && match parent {
            Some(dir) => can_have_name(dir, text::opt_text(shape.parent_name)) && can_have_parent(
                dir,
                text::opt_text(shape.grandparent),
            ),
            None => shape.parent_name is None && shape.grandparent is None,
        }
}

/// A shape holds the platform's answers as they were given.
proof fn lemma_shape_holds_the_answers(path: &str, shape: PathShape)
    requires
        call_ensures(path_shape, (path,), shape),
    ensures
        exists|asked: &str| asked@ == path@ && #[trigger] call_ensures(
            path_is_absolute,
            (asked,),
            shape.absolute,
        ),
        exists|asked: &str, answer: Option<String>|
            asked@ == path@ && text::opt_text(answer) == text::opt_text(shape.file_name)
                && #[trigger] call_ensures(path_file_name, (asked,), answer),
        exists|asked: &str, answer: Option<String>|
            asked@ == path@ && #[trigger] call_ensures(path_parent, (asked,), answer)
                && match answer {
                Some(dir) => can_have_name(dir@, text::opt_text(shape.parent_name))
                    && can_have_parent(dir@, text::opt_text(shape.grandparent)),
                None => shape.parent_name is None && shape.grandparent is None,
            },
{
    let parent = choose|parent: Option<Seq<char>>| #[trigger]
        can_have_parent(path@, parent) && match parent {
            Some(dir) => can_have_name(dir, text::opt_text(shape.parent_name)) && can_have_parent(
                dir,
                text::opt_text(shape.grandparent),
            ),
            None => shape.parent_name is None && shape.grandparent is None,
        };
    assert(can_have_parent(path@, parent));
}

proof fn lemma_unrooted(names: Seq<Seq<char>>)
    requires
        are_path_names(false, names),
    ensures
        !may_be_absolute(path_text(false, names)),
        names.len() > 0 ==> path_text(false, names).len() > 0,
        !path_text(false, names).contains(':'),
    decreases names.len(),
{
    reveal_strlit("/");
    if names.len() == 1 {
        assert(is_path_name(names[0]));
        assert(names[0].contains(names[0][0]));
    } else if names.len() > 1 {
        let before = names.drop_last();
        assert(are_path_names(false, before));
        lemma_unrooted(before);
        let path = path_text(false, names);
        assert(is_path_name(names.last()));
        assert(path[0] == path_text(false, before)[0]);
        assert forall|i: int| 0 <= i < path.len() implies (#[trigger] path[i]) != ':' by {
            let n = path_text(false, before).len() as int;
            if i < n {
                assert(path_text(false, before)[i] == path[i]);
            } else if i > n {
                assert(names.last()[i - n - 1] == path[i]);
            }
        }
    }
}

fn path_shape(path: &str) -> (shape: PathShape)
    ensures
        is_shape(shape, path@),
        is_platform_shape(shape, path@),
{
    let parent: Option<String> = path_parent(path);
    let (parent_name, grandparent) = match &parent {
        Some(parent) => (path_file_name(parent.as_str()), path_parent(parent.as_str())),
        None => (None, None),
    };
    proof {
        if parent is Some && parent_name is Some {
            lemma_holds_text(path@, parent->0@, parent_name->0@);
            if is_portable(path@) && has_name_char(parent_name->0@) {
                lemma_portable_start(path@, parent->0@);
                lemma_holds_name_char(parent->0@, parent_name->0@);
            }
        }
        if parent is Some && grandparent is Some {
            lemma_begins_with_transitive(path@, parent->0@, grandparent->0@);
        }
    }
    let shape = PathShape {
        absolute: path_is_absolute(path),
        file_name: path_file_name(path),
        parent_name,
        grandparent,
    };
    proof {
        assert(can_be_absolute(path@, shape.absolute));
        assert(can_have_name(path@, text::opt_text(shape.file_name)));
        assert(can_have_parent(path@, text::opt_text(parent)));
        if parent is Some {
            assert(can_have_name(parent->0@, text::opt_text(shape.parent_name)));
            assert(can_have_parent(parent->0@, text::opt_text(shape.grandparent)));
        }
        assert forall|rooted: bool, names: Seq<Seq<char>>| #[trigger]
            is_made_of(path@, rooted, names) implies is_shape_of_names(shape, rooted, names) by {
            if !rooted {
                lemma_unrooted(names);
            }
            if names.len() > 0 {
                assert(is_made_of(parent->0@, rooted, names.drop_last()));
            }
        }
    }
    shape
}

/// Whether a path is the program of MindNProgress: `server.mjs` in a directory `mcp`.
pub open spec fn is_entry(shape: PathShape) -> bool {
    &&& shape.absolute
    &&& text::opt_text(shape.file_name) == Some("server.mjs"@)
    &&& text::opt_text(shape.parent_name) == Some("mcp"@)
}

/// The first path that is the program of MindNProgress.
pub open spec fn first_entry(shapes: Seq<PathShape>) -> Option<PathShape>
    decreases shapes.len(),
{
    if shapes.len() == 0 {
        None
    } else if is_entry(shapes[0]) {
        Some(shapes[0])
    } else {
        first_entry(shapes.drop_first())
    }
}

/// A file below a directory: the directory, and the names that lead from it to the file.
#[derive(Debug)]
pub struct TokenFile {
    /// The directory, or the file itself where there are no names.
    pub dir: String,
    /// The names that are appended to it, one after the other.
    pub names: Vec<String>,
}

/// How MindNProgress is reached.
#[derive(Debug)]
pub struct MindNProgressIntegration {
    /// The URL of its port.
    pub api_base_url: String,
    /// The file that holds the token for it.
    pub token_file: TokenFile,
}

/// How MindNProgress is reached, as values.
#[verifier::ext_equal]
pub struct IntegrationView {
    /// The URL of its port.
    pub api_base_url: Seq<char>,
    /// The directory of the file with the token.
    pub token_dir: Seq<char>,
    /// The names that lead from the directory to the file.
    pub token_names: Seq<Seq<char>>,
}

impl View for MindNProgressIntegration {
    type V = IntegrationView;

    open spec fn view(&self) -> IntegrationView {
        IntegrationView {
            api_base_url: self.api_base_url@,
            token_dir: self.token_file.dir@,
            token_names: text::texts(self.token_file.names@),
        }
    }
}

/// Where the file with the token lies: where it is set to lie, if that is an absolute path with
/// the right name; else in the directory for data, if one is set by an absolute path; else in the
/// place that it has below the root of the project.
pub open spec fn token_place(
    project_root: Seq<char>,
    settings: BackendSettings,
    token_shape: PathShape,
    data_shape: PathShape,
) -> (Seq<char>, Seq<Seq<char>>) {
    if settings.token_file is Some && token_shape.absolute && text::opt_text(token_shape.file_name)
        == Some(INTEGRATION_TOKEN_FILENAME@) {
        (settings.token_file->0@, Seq::empty())
    } else if settings.data_dir is Some && data_shape.absolute {
        (settings.data_dir->0@, seq![INTEGRATION_TOKEN_FILENAME@])
    } else {
        (project_root, seq!["server"@, "data"@, INTEGRATION_TOKEN_FILENAME@])
    }
}

/// The URL that the settings give for MindNProgress.
pub open spec fn configured_url(settings: BackendSettings) -> Seq<char> {
    match settings.api_url {
        Some(url) => url@,
        None => DEFAULT_MNP_API_URL@,
    }
}

/// How MindNProgress is reached, given the settings and the shapes of the paths in question. None
/// if its program is not among the arguments, or if the URL does not stand for this machine.
pub open spec fn resolved(
    settings: BackendSettings,
    args: Seq<PathShape>,
    token_shape: PathShape,
    data_shape: PathShape,
) -> Option<IntegrationView> {
    match (first_entry(args), loopback_port(parsed_url(configured_url(settings)))) {
        (Some(entry), Some(port)) => match entry.grandparent {
            Some(root) => {
                let (token_dir, token_names) = token_place(
                    root@,
                    settings,
                    token_shape,
                    data_shape,
                );
                Some(
                    IntegrationView { api_base_url: loopback_url(port), token_dir, token_names },
                )
            },
            None => None,
        },
        _ => None,
    }
}

/// Whether an answer says how MindNProgress is reached, or that it is not set up.
pub open spec fn is_resolved_to(
    found: Result<MindNProgressIntegration, MindNProgressNavigationError>,
    expected: Option<IntegrationView>,
) -> bool {
    match expected {
        Some(integration) => found matches Ok(found) && found@ == integration,
        None => found matches Err(error) && error is NotConfigured,
    }
}

fn find_entry(args: Vec<PathShape>) -> (entry: Option<PathShape>)
    ensures
        entry == first_entry(args@),
{
    assert(args@.skip(0) =~= args@);
    for entry in it: args.into_iter()
        invariant
            it.seq() == args@,
            first_entry(args@) == first_entry(args@.skip(it.index())),
    {
        assert(args@.skip(it.index()).drop_first() =~= args@.skip(it.index() + 1));
        let found: bool = entry.absolute && text::is_text(&entry.file_name, "server.mjs")
            && text::is_text(&entry.parent_name, "mcp");
        if found {
            return Some(entry);
        }
    }
    None
}

fn find_token(
    project_root: String,
    settings: &BackendSettings,
    token_shape: &PathShape,
    data_shape: &PathShape,
) -> (file: TokenFile)
    ensures
        (file.dir@, text::texts(file.names@)) == token_place(
            project_root@,
            *settings,
            *token_shape,
            *data_shape,
        ),
{
    if let Some(token_file) = &settings.token_file {
        if token_shape.absolute && text::is_text(&token_shape.file_name, INTEGRATION_TOKEN_FILENAME) {
            let file = TokenFile { dir: token_file.clone(), names: Vec::new() };
            assert(text::texts(file.names@) =~= Seq::empty());
            return file;
        }
    }
    if let Some(data_dir) = &settings.data_dir {
        if data_shape.absolute {
            let file = TokenFile {
                dir: data_dir.clone(),
                names: vec![INTEGRATION_TOKEN_FILENAME.to_owned()],
            };
            assert(text::texts(file.names@) =~= seq![INTEGRATION_TOKEN_FILENAME@]);
            return file;
        }
    }
    let file = TokenFile {
        dir: project_root,
        names: vec!["server".to_owned(), "data".to_owned(), INTEGRATION_TOKEN_FILENAME.to_owned()],
    };
    assert(text::texts(file.names@) =~= seq![
        "server"@,
        "data"@,
        INTEGRATION_TOKEN_FILENAME@,
    ]);
    file
}

/// How MindNProgress is reached, given the settings and the shapes of the paths in question: those
/// of the arguments, and those of the settings for the token and for the data.
pub fn resolve_integration(
    settings: &BackendSettings,
    args: Vec<PathShape>,
    token_shape: &PathShape,
    data_shape: &PathShape,
) -> (integration: Result<MindNProgressIntegration, MindNProgressNavigationError>)
    ensures
        is_resolved_to(integration, resolved(*settings, args@, *token_shape, *data_shape)),
{
    let project_root: String = match find_entry(args) {
        Some(PathShape { grandparent: Some(root), .. }) => root,
        _ => {
            return Err(MindNProgressNavigationError::NotConfigured);
        },
    };
    let token_file: TokenFile = find_token(project_root, settings, token_shape, data_shape);
    let configured: &str = match &settings.api_url {
        Some(url) => url.as_str(),
        None => DEFAULT_MNP_API_URL,
    };
    match normalize_loopback_api_url(configured) {
        Ok(api_base_url) => Ok(MindNProgressIntegration { api_base_url, token_file }),
        Err(error) => Err(error),
    }
}

/// The shape that stands for a path that is not there.
pub open spec fn no_shape() -> PathShape {
    PathShape { absolute: false, file_name: None, parent_name: None, grandparent: None }
}

/// Whether this is the shape of a setting that is a path, or stands for one that is not set.
pub open spec fn is_setting_shape(shape: PathShape, value: Option<String>) -> bool {
    match value {
        Some(value) => is_shape(shape, value@),
        None => shape == no_shape(),
    }
}

/// Whether these are the shapes of paths, one for each.
pub open spec fn are_shapes(shapes: Seq<PathShape>, paths: Seq<Seq<char>>) -> bool {
    &&& shapes.len() == paths.len()
    &&& forall|i: int| 0 <= i < shapes.len() ==> is_shape(#[trigger] shapes[i], paths[i])
}

fn setting_shape(value: &Option<String>) -> (shape: PathShape)
    ensures
        is_setting_shape(shape, *value),
        value matches Some(value) ==> is_platform_shape(shape, value@),
{
    match value {
        Some(value) => path_shape(value.as_str()),
        None => PathShape { absolute: false, file_name: None, parent_name: None, grandparent: None },
    }
}

/// Whether an answer is how MindNProgress is reached for a tool server, for some shapes of the
/// paths that are its arguments and settings.
pub open spec fn is_resolved_for(
    found: Result<MindNProgressIntegration, MindNProgressNavigationError>,
    transport: StdioTransportConfig,
    process: ProcessSettings,
) -> bool {
    exists|
        settings: BackendSettings,
        args: Seq<PathShape>,
        token_shape: PathShape,
        data_shape: PathShape,
    |
        are_settings(settings, transport, process) && are_shapes(args, transport.spec_args())
            && is_setting_shape(token_shape, settings.token_file) && is_setting_shape(
            data_shape,
            settings.data_dir,
        ) && is_resolved_to(found, #[trigger] resolved(settings, args, token_shape, data_shape))
}

/// Whether an answer is how MindNProgress is reached for a tool server, for shapes that hold what
/// the platform answered about the paths that are its arguments and settings.
pub open spec fn is_resolved_by_platform(
    found: Result<MindNProgressIntegration, MindNProgressNavigationError>,
    transport: StdioTransportConfig,
    process: ProcessSettings,
) -> bool {
    exists|
        settings: BackendSettings,
        args: Seq<PathShape>,
        token_shape: PathShape,
        data_shape: PathShape,
    |
        {
            &&& are_settings(settings, transport, process)
            &&& are_shapes(args, transport.spec_args())
            &&& forall|i: int|
                0 <= i < args.len() ==> is_platform_shape(
                    #[trigger] args[i],
                    transport.spec_args()[i],
                )
            &&& settings.token_file matches Some(path) ==> is_platform_shape(token_shape, path@)
            &&& settings.data_dir matches Some(path) ==> is_platform_shape(data_shape, path@)
            &&& is_resolved_to(
                found,
                #[trigger] resolved(settings, args, token_shape, data_shape),
            )
        }
}

/// How MindNProgress is reached, given how its tool server is started. The platform says what the
/// arguments and settings are as paths.
pub fn resolve_integration_from_transport(
    transport: &StdioTransportConfig,
    process: &ProcessSettings,
) -> (integration: Result<MindNProgressIntegration, MindNProgressNavigationError>)
    ensures
        is_resolved_for(integration, *transport, *process),
        is_resolved_by_platform(integration, *transport, *process),
        integration matches Ok(integration) ==> integration.wf(),
        integration matches Err(error) ==> error is NotConfigured,
{
    let settings: BackendSettings = backend_settings(transport, process);
    let mut args: Vec<PathShape> = Vec::new();
    let mut i: usize = 0;
    while i < transport.args.len()
        invariant
            i <= transport.args@.len(),
            args@.len() == i,
            forall|j: int|
                0 <= j < i ==> is_shape(#[trigger] args@[j], transport.spec_args()[j])
                    && is_platform_shape(args@[j], transport.spec_args()[j]),
        decreases transport.args@.len() - i,
    {
        args.push(path_shape(transport.args[i].as_str()));
        i += 1;
    }
    let token_shape: PathShape = setting_shape(&settings.token_file);
    let data_shape: PathShape = setting_shape(&settings.data_dir);
    resolve_integration(&settings, args, &token_shape, &data_shape)
}

/// A path that means the same on every platform and is the program of MindNProgress lies in a
/// project, so that it is never for want of one that the integration is not set up.
pub proof fn program_lies_in_a_project(shape: PathShape, path: Seq<char>)
    requires
        is_shape(shape, path),
        is_portable(path),
        is_entry(shape),
    ensures
        shape.grandparent matches Some(root) && text::begins_with(path, root@),
{
    reveal_strlit("mcp");
    assert("mcp"@[0] == 'm');
    assert(has_name_char("mcp"@));
}

/// However the tool server is started, MindNProgress is only looked for on this machine.
pub proof fn integrations_are_local(
    integration: MindNProgressIntegration,
    transport: StdioTransportConfig,
    process: ProcessSettings,
)
    requires
        is_resolved_for(Ok(integration), transport, process),
    ensures
        integration.wf(),
{
}

/// However the tool server is started, no file is read for the token but one that is named as the
/// file with the token is. Where a path is made of names on every platform, that is the last one.
pub proof fn token_file_is_named_so(
    integration: MindNProgressIntegration,
    transport: StdioTransportConfig,
    process: ProcessSettings,
)
    requires
        is_resolved_for(Ok(integration), transport, process),
    ensures
        ({
            let names = integration.token_file.names@;
            if names.len() > 0 {
                names.last()@ == INTEGRATION_TOKEN_FILENAME@
            } else {
                &&& holds_text(integration.token_file.dir@, INTEGRATION_TOKEN_FILENAME@)
                &&& forall|rooted: bool, parts: Seq<Seq<char>>| #[trigger]
                    is_made_of(integration.token_file.dir@, rooted, parts) ==> last_name(parts)
                        == Some(INTEGRATION_TOKEN_FILENAME@)
            }
        }),
{
    let found = integration@.token_names;
    assert(found.len() == integration.token_file.names@.len());
    if found.len() > 0 {
        assert(found.last() == integration.token_file.names@.last()@);
    }
}

/// MindNProgress is only taken to be set up if its program is among the arguments.
pub proof fn program_is_an_argument(
    integration: MindNProgressIntegration,
    transport: StdioTransportConfig,
    process: ProcessSettings,
)
    requires
        is_resolved_for(Ok(integration), transport, process),
    ensures
        exists|i: int|
            0 <= i < transport.spec_args().len() && holds_text(
                #[trigger] transport.spec_args()[i],
                "server.mjs"@,
            ),
{
    let (settings, args, token_shape, data_shape) = choose|
        settings: BackendSettings,
        args: Seq<PathShape>,
        token_shape: PathShape,
        data_shape: PathShape,
    |
        are_settings(settings, transport, process) && are_shapes(args, transport.spec_args())
            && is_setting_shape(token_shape, settings.token_file) && is_setting_shape(
            data_shape,
            settings.data_dir,
        ) && is_resolved_to(
            Ok(integration),
            #[trigger] resolved(settings, args, token_shape, data_shape),
        );
    let i = lemma_first_entry(args);
    assert(is_shape(args[i], transport.spec_args()[i]));
}

proof fn lemma_first_entry(shapes: Seq<PathShape>) -> (i: int)
    requires
        first_entry(shapes) is Some,
    ensures
        0 <= i < shapes.len(),
        is_entry(shapes[i]),
    decreases shapes.len(),
{
    if is_entry(shapes[0]) {
        0
    } else {
        lemma_first_entry(shapes.drop_first()) + 1
    }
}

/// The segments of the path under which MindNProgress answers for a conversation.
pub open spec fn endpoint_segments(conversation_id: Seq<char>, select: bool) -> Seq<Seq<char>> {
    let link = seq![
        "api"@,
        "integrations"@,
        "aionui"@,
        "conversations"@,
        conversation_id,
        "mindnprogress"@,
    ];
    if select {
        link.push("select"@)
    } else {
        link
    }
}

/// Whether a conversation's ID is so short that the URL for it cannot outgrow what url allows.
pub open spec fn fits_endpoint(conversation_id: Seq<char>) -> bool {
    3 * text::byte_len(conversation_id) + 1_000 <= u32::MAX
}

proof fn lemma_joined_byte_len(parts: Seq<Seq<char>>, separator: Seq<char>)
    requires
        parts.len() > 1,
    ensures
        text::byte_len(text::joined(parts, separator)) == text::byte_len(
            text::joined(parts.drop_last(), separator),
        ) + text::byte_len(separator) + text::byte_len(parts.last()),
{
    text::lemma_encode_concat(text::joined(parts.drop_last(), separator), separator);
    text::lemma_encode_concat(text::joined(parts.drop_last(), separator) + separator, parts.last());
}

proof fn lemma_endpoint_len(conversation_id: Seq<char>, select: bool)
    ensures
        text::byte_len(text::joined(endpoint_segments(conversation_id, select), "/"@))
            <= text::byte_len(conversation_id) + 300,
{
    reveal_strlit("api");
    reveal_strlit("integrations");
    reveal_strlit("aionui");
    reveal_strlit("conversations");
    reveal_strlit("mindnprogress");
    reveal_strlit("select");
    reveal_strlit("/");
    text::lemma_byte_len_bounds("api"@);
    text::lemma_byte_len_bounds("integrations"@);
    text::lemma_byte_len_bounds("aionui"@);
    text::lemma_byte_len_bounds("conversations"@);
    text::lemma_byte_len_bounds("mindnprogress"@);
    text::lemma_byte_len_bounds("select"@);
    text::lemma_byte_len_bounds("/"@);
    let link = endpoint_segments(conversation_id, false);
    let select_link = endpoint_segments(conversation_id, true);
    assert(select_link.drop_last() =~= link);
    lemma_joined_byte_len(select_link, "/"@);
    lemma_joined_byte_len(link, "/"@);
    lemma_joined_byte_len(link.drop_last(), "/"@);
    lemma_joined_byte_len(link.drop_last().drop_last(), "/"@);
    lemma_joined_byte_len(link.drop_last().drop_last().drop_last(), "/"@);
    lemma_joined_byte_len(link.drop_last().drop_last().drop_last().drop_last(), "/"@);
}

proof fn lemma_fixed_segments_are_plain()
    ensures
        is_plain_segment("api"@),
        is_plain_segment("integrations"@),
        is_plain_segment("aionui"@),
        is_plain_segment("conversations"@),
        is_plain_segment("mindnprogress"@),
        is_plain_segment("select"@),
{
    reveal_strlit("api");
    reveal_strlit("integrations");
    reveal_strlit("aionui");
    reveal_strlit("conversations");
    reveal_strlit("mindnprogress");
    reveal_strlit("select");
}

proof fn lemma_plain_is_kept(segment: Seq<char>)
    requires
        is_plain_segment(segment),
    ensures
        is_kept_segment(segment),
{
    reveal_strlit(".");
    reveal_strlit("..");
    assert(segment[0] != '.');
}

proof fn lemma_endpoint_segments_kept(conversation_id: Seq<char>, select: bool)
    requires
        is_kept_segment(conversation_id),
    ensures
        forall|i: int|
            0 <= i < endpoint_segments(conversation_id, select).len() ==> is_kept_segment(
                #[trigger] endpoint_segments(conversation_id, select)[i],
            ),
{
    lemma_fixed_segments_are_plain();
    lemma_plain_is_kept("api"@);
    lemma_plain_is_kept("integrations"@);
    lemma_plain_is_kept("aionui"@);
    lemma_plain_is_kept("conversations"@);
    lemma_plain_is_kept("mindnprogress"@);
    lemma_plain_is_kept("select"@);
}

proof fn lemma_plain_endpoint(
    url: Seq<char>,
    base: Seq<char>,
    conversation_id: Seq<char>,
    select: bool,
)
    requires
        is_plain_segment(conversation_id),
        has_segments(url, base, endpoint_segments(conversation_id, select)),
    ensures
        url == base + text::joined(endpoint_segments(conversation_id, select), "/"@),
{
    let segments = endpoint_segments(conversation_id, select);
    let encoded = choose|encoded: Seq<Seq<char>>| #[trigger]
        are_segment_encodings(encoded, segments) && url == base + text::joined(encoded, "/"@);
    lemma_fixed_segments_are_plain();
    assert forall|i: int| 0 <= i < segments.len() implies encoded[i] == segments[i] by {
        assert(is_segment_encoding(encoded[i], segments[i]));
        assert(is_plain_segment(segments[i]));
    }
    assert(encoded =~= segments);
}

/// The endpoint is fixed but for one segment: a conversation whose ID is taken as a whole can add
/// no segment, query or fragment of its own.
pub proof fn endpoint_is_fixed_but_for_the_conversation(
    url: Seq<char>,
    base: Seq<char>,
    conversation_id: Seq<char>,
    select: bool,
)
    requires
        has_segments(url, base, endpoint_segments(conversation_id, select)),
    ensures
        exists|encoded: Seq<char>|
            #![trigger is_segment_encoding(encoded, conversation_id)]
            is_segment_encoding(encoded, conversation_id) && url == base + text::joined(
                endpoint_segments(encoded, select),
                "/"@,
            ),
{
    let segments = endpoint_segments(conversation_id, select);
    let all = choose|encoded: Seq<Seq<char>>| #[trigger]
        are_segment_encodings(encoded, segments) && url == base + text::joined(encoded, "/"@);
    lemma_fixed_segments_are_plain();
    let encoded = all[4];
    assert(is_segment_encoding(encoded, segments[4]));
    assert forall|i: int| 0 <= i < segments.len() implies all[i] == endpoint_segments(
        encoded,
        select,
    )[i] by {
        assert(is_segment_encoding(all[i], segments[i]));
        if i != 4 {
            assert(is_plain_segment(segments[i]));
        }
    }
    assert(all =~= endpoint_segments(encoded, select));
}

proof fn lemma_loopback_url_len(port: u16)
    ensures
        text::byte_len(loopback_url(port)) <= 100,
{
    reveal_strlit("http://127.0.0.1/");
    reveal_strlit("http://127.0.0.1:");
    reveal_strlit("/");
    reveal_with_fuel(text::decimal, 6);
    assert(text::decimal(port as nat).len() <= 5);
    text::lemma_byte_len_bounds(loopback_url(port));
}

impl MindNProgressIntegration {
    /// Whether the URL is that of a port on this machine.
    pub open spec fn wf(self) -> bool {
        is_loopback_url(self.api_base_url@)
    }

    /// The URL under which MindNProgress answers for a conversation, or takes the selection of its
    /// card.
    pub fn endpoint(&self, conversation_id: &str, select: bool) -> (url: Result<
        String,
        MindNProgressNavigationError,
    >)
        requires
            self.wf(),
            fits_endpoint(conversation_id@),
        ensures
            url matches Ok(url) && Some(url@) == url_with_segments(
                self.api_base_url@,
                endpoint_segments(conversation_id@, select),
            ),
            url matches Ok(url) && goes_below(url@, self.api_base_url@),
            is_kept_segment(conversation_id@) ==> (url matches Ok(url) && has_segments(
                url@,
                self.api_base_url@,
                endpoint_segments(conversation_id@, select),
            )),
            is_plain_segment(conversation_id@) ==> (url matches Ok(url) && url@
                == self.api_base_url@ + text::joined(
                endpoint_segments(conversation_id@, select),
                "/"@,
            )),
    {
        let mut segments: Vec<String> = vec![
            "api".to_owned(),
            "integrations".to_owned(),
            "aionui".to_owned(),
            "conversations".to_owned(),
            conversation_id.to_owned(),
            "mindnprogress".to_owned(),
        ];
        if select {
            segments.push("select".to_owned());
        }
        assert(text::texts(segments@) =~= endpoint_segments(conversation_id@, select));
        proof {
            lemma_endpoint_len(conversation_id@, select);
            lemma_fixed_segments_are_plain();
            if is_kept_segment(conversation_id@) {
                lemma_endpoint_segments_kept(conversation_id@, select);
            }
            let port = choose|port: u16| self.api_base_url@ == #[trigger] loopback_url(port);
            lemma_loopback_url_len(port);
        }
        proof {
            if is_kept_segment(conversation_id@) {
                assert forall|i: int| 0 <= i < segments@.len() implies is_kept_segment(
                    #[trigger] segments@[i]@,
                ) by {
                    assert(segments@[i]@ == endpoint_segments(conversation_id@, select)[i]);
                }
            }
        }
        match replace_url_segments(self.api_base_url.as_str(), &segments) {
            Some(url) => {
                proof {
                    if is_plain_segment(conversation_id@) {
                        lemma_plain_is_kept(conversation_id@);
                        lemma_plain_endpoint(url@, self.api_base_url@, conversation_id@, select);
                    }
                }
                Ok(url)
            },
            None => Err(MindNProgressNavigationError::NotConfigured),
        }
    }
}

} // verus!
