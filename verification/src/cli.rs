use vstd::prelude::*;
use crate::http_method::{is_method_token, parse_method};
use crate::text::{
    colon_index, find_colon, law_trim_is_idempotent, law_trim_keeps_no_new_char, same_text,
    to_uppercase, trim, trimmed, uppercase,
};

verus! {

/// The settings of a benchmark run, as given on the command line.
pub struct Args {
    /// Target URL.
    pub url: String,
    /// Concurrent connections.
    pub connections: usize,
    /// Test duration in seconds.
    pub duration: u64,
    /// Target requests per second, 0 for no limit.
    pub qps: u64,
    /// Seconds over which the rate rises linearly from 0 to `qps`.
    pub ramp: u64,
    /// Worker threads, by default one per logical CPU.
    pub threads: Option<usize>,
    /// Extra request headers, each written "Name: Value".
    pub headers: Vec<String>,
    /// HTTP method.
    pub method: String,
    /// Request body: the text itself, or "@" and the path of a file that holds it.
    pub body: Option<String>,
    /// Content-Type header sent with a body.
    pub content_type: String,
    /// Skip TLS certificate verification.
    pub tls_skip_verify: bool,
    /// Force HTTP/2.
    pub http2: bool,
    /// Print the results as JSON.
    pub json: bool,
    /// Seconds between CSV lines, 0 for none.
    pub csv_interval: u64,
    /// A second URL to benchmark alongside the first.
    pub compare: Option<String>,
}

/// Why the settings were refused.
pub enum ArgsError {
    /// No connection was asked for.
    NoConnections,
    /// A duration of zero seconds was asked for.
    NoDuration,
    /// The method, as it was given, is not one that the tool sends.
    UnsupportedMethod(String),
}

/// The methods that the tool sends, in upper case.
pub open spec fn is_supported_method(upper: Seq<char>) -> bool {
    ||| upper == "GET"@
    ||| upper == "POST"@
    ||| upper == "PUT"@
    ||| upper == "DELETE"@
    ||| upper == "HEAD"@
    ||| upper == "OPTIONS"@
}

/// The outcome of validating `args` whose method, in upper case, is `method_upper`:
/// the first failed check in the order connections, duration, method, or the
/// settings unchanged.
pub open spec fn validation(args: Args, method_upper: Seq<char>) -> Result<Args, ArgsError> {
    if args.connections == 0 {
        Err(ArgsError::NoConnections)
    } else if args.duration == 0 {
        Err(ArgsError::NoDuration)
    } else if !is_supported_method(method_upper) {
        Err(ArgsError::UnsupportedMethod(args.method))
    } else {
        Ok(args)
    }
}

/// The method that requests are sent with: the given one in upper case when
/// that is a valid method name, and GET otherwise.
pub open spec fn method_name(method: Seq<char>) -> Seq<char> {
    if is_method_token(uppercase(method)) {
        uppercase(method)
    } else {
        "GET"@
    }
}

/// A header written "Name: Value" split at its first ':', both sides trimmed;
/// nothing for a line without ':'.
pub open spec fn split_header(line: Seq<char>) -> Option<(Seq<char>, Seq<char>)> {
    let i = colon_index(line);
    if i < line.len() {
        Some((trimmed(line.take(i as int)), trimmed(line.skip(i + 1int))))
    } else {
        None
    }
}

/// The name and value of every header line that holds a ':', in order.
pub open spec fn header_pairs(lines: Seq<Seq<char>>) -> Seq<(Seq<char>, Seq<char>)> {
    lines.filter_map(|line: Seq<char>| split_header(line))
}

/// The characters of each string.
pub open spec fn texts(strings: Seq<String>) -> Seq<Seq<char>> {
    strings.map_values(|s: String| s@)
}

/// The characters of each pair of strings.
pub open spec fn text_pairs(pairs: Seq<(String, String)>) -> Seq<(Seq<char>, Seq<char>)> {
    pairs.map_values(|p: (String, String)| (p.0@, p.1@))
}

/// A header pair as `parsed_headers` gives it: a name without ':', and a
/// name and a value without surrounding white space.
pub open spec fn is_clean_header(p: (Seq<char>, Seq<char>)) -> bool {
    &&& !p.0.contains(':')
    &&& trimmed(p.0) == p.0
    &&& trimmed(p.1) == p.1
}

proof fn lemma_literal_tokens()
    ensures
        is_method_token("GET"@),
        is_method_token("POST"@),
        is_method_token("PUT"@),
        is_method_token("DELETE"@),
        is_method_token("HEAD"@),
        is_method_token("OPTIONS"@),
{
    reveal_strlit("GET");
    reveal_strlit("POST");
    reveal_strlit("PUT");
    reveal_strlit("DELETE");
    reveal_strlit("HEAD");
    reveal_strlit("OPTIONS");
}

/// The method sent is always a valid method name.
pub proof fn law_sent_method_is_valid(method: Seq<char>)
    ensures
        is_method_token(method_name(method)),
{
    lemma_literal_tokens();
}

/// Once the settings are accepted, requests go out with the configured method
/// in upper case.
pub proof fn law_accepted_method_is_sent(args: Args)
    requires
        validation(args, uppercase(args.method@)) is Ok,
    ensures
        method_name(args.method@) == uppercase(args.method@),
{
    lemma_literal_tokens();
}

/// Every header pair is clean: split at the first ':', so the name holds none,
/// and trimmed on both sides.
pub proof fn law_header_pairs_are_clean(lines: Seq<Seq<char>>)
    ensures
        forall|k: int|
            0 <= k < header_pairs(lines).len() ==> is_clean_header(#[trigger] header_pairs(lines)[k]),
    decreases lines.len(),
{
    if lines.len() > 0 {
        let rest = lines.drop_last();
        let line = lines.last();
        law_header_pairs_are_clean(rest);
        assert(header_pairs(lines) == match split_header(line) {
            Some(p) => header_pairs(rest) + seq![p],
            None => header_pairs(rest),
        });
        if let Some(p) = split_header(line) {
            let i = colon_index(line);
            crate::text::law_colon_index_bounds(line);
            assert(!line.take(i as int).contains(':'));
            law_trim_keeps_no_new_char(line.take(i as int), ':');
            law_trim_is_idempotent(line.take(i as int));
            law_trim_is_idempotent(line.skip(i + 1int));
            assert(is_clean_header(p));
        }
    }
}

/// What validation decides: settings with at least one connection, a duration
/// of at least one second and a method that is, in upper case, GET, POST, PUT,
/// DELETE, HEAD or OPTIONS are accepted unchanged; otherwise the first failed
/// check, in the order connections, duration, method, is reported.
pub proof fn law_validation_decides(args: Args, method_upper: Seq<char>)
    ensures
        ({
            let supported = method_upper == "GET"@ || method_upper == "POST"@ || method_upper
                == "PUT"@ || method_upper == "DELETE"@ || method_upper == "HEAD"@ || method_upper
                == "OPTIONS"@;
            let r = validation(args, method_upper);
            &&& (args.connections >= 1 && args.duration >= 1 && supported) <==> r == Ok::<
                Args,
                ArgsError,
            >(args)
            &&& (r is Ok ==> r == Ok::<Args, ArgsError>(args))
            &&& (r == Err::<Args, ArgsError>(ArgsError::NoConnections)) <==> args.connections == 0
            &&& (r == Err::<Args, ArgsError>(ArgsError::NoDuration)) <==> (args.connections >= 1
                && args.duration == 0)
            &&& (r matches Err(ArgsError::UnsupportedMethod(m))) <==> (args.connections >= 1
                && args.duration >= 1 && !supported)
            &&& (r matches Err(ArgsError::UnsupportedMethod(m)) ==> m == args.method)
        }),
{
}

/// A header line gives a pair exactly when it holds a ':', whatever its name
/// and value: the name is what comes before the first ':' and the value what
/// comes after it, each trimmed.
pub proof fn law_split_header_at_first_colon(line: Seq<char>)
    ensures
        line.contains(':') <==> split_header(line) is Some,
        forall|i: int|
            0 <= i < line.len() && line[i] == ':' && (forall|j: int| 0 <= j < i ==> line[j] != ':')
                ==> split_header(line) == Some(
                (trimmed(#[trigger] line.take(i)), trimmed(line.skip(i + 1))),
            ),
{
    crate::text::law_colon_index_bounds(line);
    let k = colon_index(line);
    if line.contains(':') {
        let i = choose|i: int| 0 <= i < line.len() && line[i] == ':';
        assert(k <= i);
    }
    if k < line.len() {
        assert(line[k as int] == ':');
    }
    assert forall|i: int|
        0 <= i < line.len() && line[i] == ':' && (forall|j: int| 0 <= j < i ==> line[j] != ':')
            implies split_header(line) == Some(
            (trimmed(#[trigger] line.take(i)), trimmed(line.skip(i + 1))),
        ) by {
        if k < i {
            assert(line[k as int] == ':');
        }
    }
}

/// Every header line that holds a ':' gives exactly one pair, in order: there
/// are as many pairs as such lines, and the lines without ':' are skipped.
pub proof fn law_one_pair_per_header_with_colon(lines: Seq<Seq<char>>)
    ensures
        header_pairs(lines).len() == lines.filter(|l: Seq<char>| l.contains(':')).len(),
    decreases lines.len(),
{
    if lines.len() > 0 {
        let rest = lines.drop_last();
        law_one_pair_per_header_with_colon(rest);
        law_split_header_at_first_colon(lines.last());
        assert(header_pairs(lines) == match split_header(lines.last()) {
            Some(p) => header_pairs(rest) + seq![p],
            None => header_pairs(rest),
        });
        let has_colon = |l: Seq<char>| l.contains(':');
        reveal_with_fuel(Seq::<_>::filter, 1);
        assert(lines.filter(has_colon) == if has_colon(lines.last()) {
            rest.filter(has_colon).push(lines.last())
        } else {
            rest.filter(has_colon)
        });
    }
}

/// Where a request body comes from.
pub enum RequestBody {
    /// No body.
    Empty,
    /// The contents of the file at this path.
    File(String),
    /// This text.
    Text(String),
}

/// Splits one header line at its first ':' and trims both sides.
pub fn split_header_line(line: &str) -> (pair: Option<(String, String)>)
    ensures
        match pair {
            Some(p) => split_header(line@) == Some((p.0@, p.1@)),
            None => split_header(line@) is None,
        },
{
    let k = find_colon(line);
    let n = line.unicode_len();
    if k < n {
        let name = trim(line.substring_char(0, k));
        let value = trim(line.substring_char(k + 1, n));
        proof {
            assert(line@.subrange(0, k as int) =~= line@.take(k as int));
            assert(line@.subrange(k + 1, n as int) =~= line@.skip(k + 1));
        }
        Some((name, value))
    } else {
        None
    }
}

/// The method to send for a name already put in upper case: the name itself
/// when it is a valid method name, GET otherwise.
pub fn method_or_get(upper: &str) -> (m: String)
    ensures
        m@ == if is_method_token(upper@) {
            upper@
        } else {
            "GET"@
        },
{
    match parse_method(upper) {
        Some(name) => name,
        None => String::from_str("GET"),
    }
}

/// Checks settings whose method was already put in upper case as `method_upper`.
pub fn check_args(args: Args, method_upper: &str) -> (res: Result<Args, ArgsError>)
    ensures
        res == validation(args, method_upper@),
{
    if args.connections == 0 {
        return Err(ArgsError::NoConnections);
    }
    if args.duration == 0 {
        return Err(ArgsError::NoDuration);
    }
    let supported = same_text(method_upper, "GET") || same_text(method_upper, "POST")
        || same_text(method_upper, "PUT") || same_text(method_upper, "DELETE")
        || same_text(method_upper, "HEAD") || same_text(method_upper, "OPTIONS");
    if !supported {
        return Err(ArgsError::UnsupportedMethod(args.method));
    }
    Ok(args)
}

impl ArgsError {
    /// The message that the tool prints for the error.
    pub fn message(&self) -> (m: String)
        ensures
            match self {
                ArgsError::NoConnections => m@ == "--connections must be >= 1"@,
                ArgsError::NoDuration => m@ == "--duration must be >= 1"@,
                ArgsError::UnsupportedMethod(method) => m@ == "unsupported method: "@ + method@,
            },
    {
        match self {
            ArgsError::NoConnections => String::from_str("--connections must be >= 1"),
            ArgsError::NoDuration => String::from_str("--duration must be >= 1"),
            ArgsError::UnsupportedMethod(method) => String::from_str(
                "unsupported method: ",
            ).concat(method.as_str()),
        }
    }
}

impl Args {
    /// Validates settings read from the command line: at least one connection,
    /// a duration of at least one second, and a method that is, in upper case,
    /// one of GET, POST, PUT, DELETE, HEAD and OPTIONS.
    pub fn parse_and_validate(args: Args) -> (res: Result<Args, ArgsError>)
        ensures
            res == validation(args, uppercase(args.method@)),
    {
        let upper = to_uppercase(args.method.as_str());
        check_args(args, upper.as_str())
    }

    /// The name of the method to send: the configured one in upper case if it
    /// is a valid method name, GET otherwise.
    pub fn method_http(&self) -> (m: String)
        ensures
            m@ == method_name(self.method@),
    {
        let upper = to_uppercase(self.method.as_str());
        method_or_get(upper.as_str())
    }

    /// The extra headers as (name, value) pairs; lines without ':' are skipped.
    pub fn parsed_headers(&self) -> (pairs: Vec<(String, String)>)
        ensures
            text_pairs(pairs@) == header_pairs(texts(self.headers@)),
    {
        let mut pairs: Vec<(String, String)> = Vec::new();
        let n = self.headers.len();
        let ghost lines = texts(self.headers@);
        for i in 0..n
            invariant
                n == self.headers.len(),
                lines == texts(self.headers@),
                text_pairs(pairs@) == header_pairs(lines.take(i as int)),
        {
            proof {
                assert(lines.take(i + 1).drop_last() =~= lines.take(i as int));
                assert(lines.take(i + 1).last() == self.headers@[i as int]@);
            }
            let ghost before = pairs@;
            match split_header_line(self.headers[i].as_str()) {
                Some(p) => {
                    pairs.push(p);
                    proof {
                        assert(text_pairs(pairs@) =~= text_pairs(before).push(
                            (pairs@.last().0@, pairs@.last().1@),
                        ));
                    }
                },
                None => {},
            }
        }
        proof {
            assert(lines.take(n as int) =~= lines);
        }
        pairs
    }

    /// Where the body of each request comes from: a body that starts with '@'
    /// names a file (the rest of it is the path), any other body is sent as it is.
    pub fn request_body(&self) -> (b: RequestBody)
        ensures
            match self.body {
                None => b is Empty,
                Some(data) => if data@.len() > 0 && data@[0] == '@' {
                    b matches RequestBody::File(path) && path@ == data@.drop_first()
                } else {
                    b matches RequestBody::Text(text) && text@ == data@
                },
            },
    {
        match &self.body {
            None => RequestBody::Empty,
            Some(data) => {
                let s = data.as_str();
                let n = s.unicode_len();
                if n > 0 && s.get_char(0) == '@' {
                    let path = s.substring_char(1, n);
                    proof {
                        assert(path@ =~= data@.drop_first());
                    }
                    RequestBody::File(String::from_str(path))
                } else {
                    RequestBody::Text(String::from_str(s))
                }
            },
        }
    }

    /// The headers of each request: the extra headers, then the Content-Type
    /// when there is a body.
    pub fn request_headers(&self) -> (headers: Vec<(String, String)>)
        ensures
            text_pairs(headers@) == header_pairs(texts(self.headers@)) + if self.body is Some {
                seq![("content-type"@, self.content_type@)]
            } else {
                Seq::empty()
            },
    {
        let mut headers = self.parsed_headers();
        let ghost before = headers@;
        if self.body.is_some() {
            headers.push((String::from_str("content-type"), String::from_str(self.content_type.as_str())));
            proof {
                assert(text_pairs(headers@) =~= text_pairs(before).push(
                    ("content-type"@, self.content_type@),
                ));
            }
        } else {
            proof {
                assert(text_pairs(headers@) =~= text_pairs(before) + Seq::empty());
            }
        }
        headers
    }
}

} // verus!
