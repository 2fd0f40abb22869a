//! HTTP errors and structured error reports.
use vstd::prelude::*;
use crate::text;

verus! {

/// A position in a source file.
#[derive(Debug, Clone)]
pub struct SourceLocation {
    pub file: Option<String>,
    pub line: usize,
    pub column: usize,
}

/// `file:line:column`, or `line:column` without a file.
pub open spec fn location_text(file: Option<Seq<char>>, line: nat, column: nat) -> Seq<char> {
    match file {
        Some(f) => f + seq![':'] + text::decimal(line) + seq![':'] + text::decimal(column),
        None => text::decimal(line) + seq![':'] + text::decimal(column),
    }
}

impl SourceLocation {
    pub open spec fn file_view(&self) -> Option<Seq<char>> {
        match self.file {
            Some(f) => Some(f@),
            None => None,
        }
    }

    /// How a location is displayed.
    pub fn to_string(&self) -> (r: String)
        ensures
            r@ == location_text(self.file_view(), self.line as nat, self.column as nat),
    {
        let l = text::usize_to_string(self.line);
        let c = text::usize_to_string(self.column);
        let tail = text::cat3(l.as_str(), ":", c.as_str());
        proof {
            reveal_strlit(":");
        }
        match &self.file {
            Some(f) => text::cat3(f.as_str(), ":", tail.as_str()),
            None => tail,
        }
    }
}

/// The framework's error.
#[derive(Debug, Clone)]
pub enum FrameworkError {
    Internal(String),
}

impl From<String> for FrameworkError {
    fn from(s: String) -> (r: FrameworkError) {
        FrameworkError::Internal(s)
    }
}

impl vstd::std_specs::convert::FromSpecImpl<String> for FrameworkError {
    open spec fn obeys_from_spec() -> bool {
        true
    }

    open spec fn from_spec(v: String) -> FrameworkError {
        FrameworkError::Internal(v)
    }
}

impl FrameworkError {
    /// The error's message (what `Display` shows).
    pub fn message(&self) -> (r: String)
        ensures
            r@ == match self {
                FrameworkError::Internal(s) => s@,
            },
    {
        match self {
            FrameworkError::Internal(s) => text::owned(s.as_str()),
        }
    }
}

/// HTTP error with status code and message.
#[derive(Debug, Clone)]
pub struct HttpError {
    pub status: u16,
    pub message: String,
    pub code: Option<String>,
}

/// The reason phrase of a status.
pub open spec fn status_text_of(status: u16) -> Seq<char> {
    if status == 400 {
        "Bad Request"@
    } else if status == 401 {
        "Unauthorized"@
    } else if status == 403 {
        "Forbidden"@
    } else if status == 404 {
        "Not Found"@
    } else if status == 422 {
        "Unprocessable Entity"@
    } else if status == 429 {
        "Too Many Requests"@
    } else if status == 500 {
        "Internal Server Error"@
    } else if status == 502 {
        "Bad Gateway"@
    } else if status == 503 {
        "Service Unavailable"@
    } else {
        "Error"@
    }
}

impl HttpError {
    pub fn new(status: u16, message: &str) -> (r: HttpError)
        ensures
            r.status == status,
            r.message@ == message@,
            r.code is None,
    {
        HttpError { status, message: text::owned(message), code: None }
    }

    pub fn with_code(self, code: &str) -> (r: HttpError)
        ensures
            r.status == self.status,
            r.message@ == self.message@,
            r.code matches Some(c) && c@ == code@,
    {
        HttpError { status: self.status, message: self.message, code: Some(text::owned(code)) }
    }

    pub fn not_found(message: &str) -> (r: HttpError)
        ensures
            r.status == 404,
            r.message@ == message@,
            r.code is None,
    {
        HttpError::new(404, message)
    }

    pub fn unauthorized(message: &str) -> (r: HttpError)
        ensures
            r.status == 401,
            r.message@ == message@,
            r.code is None,
    {
        HttpError::new(401, message)
    }

    pub fn forbidden(message: &str) -> (r: HttpError)
        ensures
            r.status == 403,
            r.message@ == message@,
            r.code is None,
    {
        HttpError::new(403, message)
    }

    /// A 422 error; the individual messages are not kept.
    pub fn validation_error(_errors: Vec<String>) -> (r: HttpError)
        ensures
            r.status == 422,
            r.message@ == "Validation failed"@,
            r.code matches Some(c) && c@ == "VALIDATION_ERROR"@,
    {
        HttpError {
            status: 422,
            message: text::owned("Validation failed"),
            code: Some(text::owned("VALIDATION_ERROR")),
        }
    }

    pub fn internal(message: &str) -> (r: HttpError)
        ensures
            r.status == 500,
            r.message@ == message@,
            r.code is None,
    {
        HttpError::new(500, message)
    }

    pub fn bad_request(message: &str) -> (r: HttpError)
        ensures
            r.status == 400,
            r.message@ == message@,
            r.code is None,
    {
        HttpError::new(400, message)
    }

    pub fn too_many_requests(message: &str) -> (r: HttpError)
        ensures
            r.status == 429,
            r.message@ == message@,
            r.code is None,
    {
        HttpError::new(429, message)
    }

    pub fn status_text(&self) -> (r: &'static str)
        ensures
            r@ == status_text_of(self.status),
    {
        match self.status {
            400 => "Bad Request",
            401 => "Unauthorized",
            403 => "Forbidden",
            404 => "Not Found",
            422 => "Unprocessable Entity",
            429 => "Too Many Requests",
            500 => "Internal Server Error",
            502 => "Bad Gateway",
            503 => "Service Unavailable",
            _ => "Error",
        }
    }

    /// `[status] reason: message`, as the error is displayed.
    pub fn to_string(&self) -> (r: String)
        ensures
            r@ == seq!['['] + text::decimal(self.status as nat) + "] "@ + status_text_of(
                self.status,
            ) + ": "@ + self.message@,
    {
        let mut r = text::owned("[");
        let n = text::u64_to_string(self.status as u64);
        r.append(n.as_str());
        r.append("] ");
        r.append(self.status_text());
        r.append(": ");
        r.append(self.message.as_str());
        proof {
            reveal_strlit("[");
        }
        r
    }
}

/// A structured error report for logging and debugging.
#[derive(Debug, Clone)]
pub struct ErrorReport {
    pub message: String,
    pub kind: String,
    pub stack: Vec<String>,
    pub location: Option<SourceLocation>,
    pub context: Vec<(String, String)>,
}

pub open spec fn pair_views(v: Seq<(String, String)>) -> Seq<(Seq<char>, Seq<char>)> {
    v.map_values(|p: (String, String)| (p.0@, p.1@))
}

/// The lines of a report as it is displayed.
pub open spec fn report_lines(r: ErrorReport) -> Seq<Seq<char>> {
    seq![seq!['['] + r.kind@ + "] "@ + r.message@] + (match r.location {
        Some(l) => seq!["  at "@ + location_text(l.file_view(), l.line as nat, l.column as nat)],
        None => seq![],
    }) + pair_views(r.context@).map_values(
        |p: (Seq<char>, Seq<char>)| seq![' ', ' '] + p.0 + ": "@ + p.1,
    ) + if r.stack@.len() > 0 {
        seq!["  Stack:"@] + text::str_views(r.stack@).map_values(|s: Seq<char>| "    "@ + s)
    } else {
        seq![]
    }
}

impl ErrorReport {
    pub fn new(message: &str, kind: &str) -> (r: ErrorReport)
        ensures
            r.message@ == message@,
            r.kind@ == kind@,
            r.stack@.len() == 0,
            r.location is None,
            r.context@.len() == 0,
    {
        ErrorReport {
            message: text::owned(message),
            kind: text::owned(kind),
            stack: Vec::new(),
            location: None,
            context: Vec::new(),
        }
    }

    pub fn with_location(self, loc: SourceLocation) -> (r: ErrorReport)
        ensures
            r.message == self.message,
            r.kind == self.kind,
            r.stack == self.stack,
            r.location == Some(loc),
            r.context == self.context,
    {
        ErrorReport {
            message: self.message,
            kind: self.kind,
            stack: self.stack,
            location: Some(loc),
            context: self.context,
        }
    }

    pub fn with_context(self, key: &str, value: &str) -> (r: ErrorReport)
        ensures
            r.message == self.message,
            r.kind == self.kind,
            r.stack == self.stack,
            r.location == self.location,
            pair_views(r.context@) == pair_views(self.context@).push((key@, value@)),
    {
        let mut context = self.context;
        let pair = (text::owned(key), text::owned(value));
        proof {
            assert(pair_views(context@.push(pair)) =~= pair_views(context@).push((key@, value@)));
        }
        context.push(pair);
        ErrorReport {
            message: self.message,
            kind: self.kind,
            stack: self.stack,
            location: self.location,
            context,
        }
    }

    pub fn with_stack(self, stack: Vec<String>) -> (r: ErrorReport)
        ensures
            r.message == self.message,
            r.kind == self.kind,
            r.stack == stack,
            r.location == self.location,
            r.context == self.context,
    {
        ErrorReport {
            message: self.message,
            kind: self.kind,
            stack,
            location: self.location,
            context: self.context,
        }
    }

    /// The lines of the report as it is displayed.
    pub fn to_lines(&self) -> (r: Vec<String>)
        ensures
            text::str_views(r@) == report_lines(*self),
    {
        let mut out: Vec<String> = Vec::new();
        let first = text::cat3("[", self.kind.as_str(), "] ");
        let first = text::cat(first.as_str(), self.message.as_str());
        proof {
            reveal_strlit("[");
            text::lemma_str_views_push(out@, first);
            assert(text::str_views(out@) =~= Seq::<Seq<char>>::empty());
            assert(first@ =~= seq!['['] + self.kind@ + "] "@ + self.message@);
        }
        out.push(first);
        let ghost part0 = text::str_views(out@);
        assert(part0 =~= seq![seq!['['] + self.kind@ + "] "@ + self.message@]);
        match &self.location {
            Some(l) => {
                let lt = l.to_string();
                let at = text::cat("  at ", lt.as_str());
                proof {
                    text::lemma_str_views_push(out@, at);
                }
                out.push(at);
            },
            None => {},
        }
        let ghost part1 = text::str_views(out@);
        assert(part1 =~= part0 + (match self.location {
            Some(l) => seq!["  at "@ + location_text(l.file_view(), l.line as nat, l.column as nat)],
            None => seq![],
        }));
        let ghost ctx = pair_views(self.context@).map_values(
            |p: (Seq<char>, Seq<char>)| seq![' ', ' '] + p.0 + ": "@ + p.1,
        );
        let mut i: usize = 0;
        while i < self.context.len()
            invariant
                i <= self.context@.len(),
                ctx == pair_views(self.context@).map_values(
                    |p: (Seq<char>, Seq<char>)| seq![' ', ' '] + p.0 + ": "@ + p.1,
                ),
                text::str_views(out@) == part1 + ctx.take(i as int),
            decreases self.context.len() - i,
        {
            let l = text::cat3("  ", self.context[i].0.as_str(), ": ");
            let l = text::cat(l.as_str(), self.context[i].1.as_str());
            proof {
                reveal_strlit("  ");
                text::lemma_str_views_push(out@, l);
                assert(ctx[i as int] == l@);
                assert(ctx.take(i + 1) =~= ctx.take(i as int).push(l@));
            }
            out.push(l);
            i += 1;
        }
        proof {
            assert(ctx.take(self.context@.len() as int) =~= ctx);
        }
        let ghost part2 = text::str_views(out@);
        assert(part2 =~= part1 + ctx);
        let ghost tail = if self.stack@.len() > 0 {
            seq!["  Stack:"@] + text::str_views(self.stack@).map_values(|s: Seq<char>| "    "@ + s)
        } else {
            seq![]
        };
        if self.stack.len() > 0 {
            let hdr = text::owned("  Stack:");
            proof {
                text::lemma_str_views_push(out@, hdr);
            }
            out.push(hdr);
            let ghost st = text::str_views(self.stack@).map_values(|s: Seq<char>| "    "@ + s);
            let mut j: usize = 0;
            while j < self.stack.len()
                invariant
                    j <= self.stack@.len(),
                    st == text::str_views(self.stack@).map_values(|s: Seq<char>| "    "@ + s),
                    text::str_views(out@) == part2 + seq!["  Stack:"@] + st.take(j as int),
                decreases self.stack.len() - j,
            {
                let l = text::cat("    ", self.stack[j].as_str());
                proof {
                    text::lemma_str_views_push(out@, l);
                    assert(st[j as int] == l@);
                    assert(st.take(j + 1) =~= st.take(j as int).push(l@));
                }
                out.push(l);
                j += 1;
            }
            proof {
                assert(st.take(self.stack@.len() as int) =~= st);
                assert(text::str_views(out@) =~= part2 + tail);
            }
        } else {
            assert(text::str_views(out@) =~= part2 + tail);
        }
        proof {
            assert(report_lines(*self) =~= part2 + tail);
        }
        out
    }
}

} // verus!
