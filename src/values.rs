//! The value types of single claims: two open enumerations and a numeric date.
use vstd::prelude::*;
use vstd::string::*;
use crate::json::{is_number_text, scan_number_in};
use crate::text::same_text;

verus! {

/// Visibility of the repository that a job runs in. A value that the issuer
/// adds later is kept, verbatim, in `Other`.
#[derive(Debug, Clone, PartialEq, Eq)]
pub enum Visibility {
    Internal,
    Private,
    Public,
    Other(String),
}

pub open spec fn is_visibility_tag(s: Seq<char>) -> bool {
    s == "internal"@ || s == "private"@ || s == "public"@
}

impl View for Visibility {
    type V = Seq<char>;

    /// The text that stands for the value on the wire.
    open spec fn view(&self) -> Seq<char> {
        match self {
            Visibility::Internal => "internal"@,
            Visibility::Private => "private"@,
            Visibility::Public => "public"@,
            Visibility::Other(s) => s@,
        }
    }
}

impl Visibility {
    /// A known tag is never held by `Other`.
    pub open spec fn wf(&self) -> bool {
        self matches Visibility::Other(s) ==> !is_visibility_tag(s@)
    }

    /// The value that `s` stands for on the wire: a known tag, else `Other`.
    pub fn from_wire(s: &str) -> (r: Visibility)
        ensures
            r.wf(),
            r@ == s@,
            s@ == "internal"@ <==> r is Internal,
            s@ == "private"@ <==> r is Private,
            s@ == "public"@ <==> r is Public,
    {
        proof {
            reveal_strlit("internal");
            reveal_strlit("private");
            reveal_strlit("public");
            assert("internal"@.len() == 8 && "private"@.len() == 7 && "public"@.len() == 6);
        }
        if same_text(s, "internal") {
            Visibility::Internal
        } else if same_text(s, "private") {
            Visibility::Private
        } else if same_text(s, "public") {
            Visibility::Public
        } else {
            Visibility::Other(s.to_owned())
        }
    }

    /// The text that stands for the value on the wire.
    pub fn as_wire(&self) -> (r: &str)
        ensures
            r@ == self@,
    {
        match self {
            Visibility::Internal => "internal",
            Visibility::Private => "private",
            Visibility::Public => "public",
            Visibility::Other(s) => s.as_str(),
        }
    }
}

/// The kind of runner that a job runs on. A value that the issuer adds later
/// is kept, verbatim, in `Other`.
#[derive(Debug, Clone, PartialEq, Eq)]
pub enum RunnerEnvironment {
    GithubHosted,
    SelfHosted,
    Other(String),
}

pub open spec fn is_runner_tag(s: Seq<char>) -> bool {
    s == "github-hosted"@ || s == "self-hosted"@
}

impl View for RunnerEnvironment {
    type V = Seq<char>;

    /// The text that stands for the value on the wire.
    open spec fn view(&self) -> Seq<char> {
        match self {
            RunnerEnvironment::GithubHosted => "github-hosted"@,
            RunnerEnvironment::SelfHosted => "self-hosted"@,
            RunnerEnvironment::Other(s) => s@,
        }
    }
}

impl RunnerEnvironment {
    /// A known tag is never held by `Other`.
    pub open spec fn wf(&self) -> bool {
        self matches RunnerEnvironment::Other(s) ==> !is_runner_tag(s@)
    }

    /// The value that `s` stands for on the wire: a known tag, else `Other`.
    pub fn from_wire(s: &str) -> (r: RunnerEnvironment)
        ensures
            r.wf(),
            r@ == s@,
            s@ == "github-hosted"@ <==> r is GithubHosted,
            s@ == "self-hosted"@ <==> r is SelfHosted,
    {
        proof {
            reveal_strlit("github-hosted");
            reveal_strlit("self-hosted");
            assert("github-hosted"@.len() == 13 && "self-hosted"@.len() == 11);
        }
        if same_text(s, "github-hosted") {
            RunnerEnvironment::GithubHosted
        } else if same_text(s, "self-hosted") {
            RunnerEnvironment::SelfHosted
        } else {
            RunnerEnvironment::Other(s.to_owned())
        }
    }

    /// The text that stands for the value on the wire.
    pub fn as_wire(&self) -> (r: &str)
        ensures
            r@ == self@,
    {
        match self {
            RunnerEnvironment::GithubHosted => "github-hosted",
            RunnerEnvironment::SelfHosted => "self-hosted",
            RunnerEnvironment::Other(s) => s.as_str(),
        }
    }
}

/// A point in time in seconds since the epoch, as the JSON number that
/// carries it. The text is kept as it came, fraction and exponent included,
/// so nothing is lost in a decode and encode.
#[derive(Debug, Clone, PartialEq, Eq)]
pub struct NumericDate {
    text: String,
}

impl View for NumericDate {
    type V = Seq<char>;

    closed spec fn view(&self) -> Seq<char> {
        self.text@
    }
}

impl NumericDate {
    /// The text is exactly one JSON number.
    pub open spec fn wf(&self) -> bool {
        is_number_text(self@)
    }

    /// The date written as the JSON number `s`; `None` where `s` is not one.
    pub fn parse(s: &str) -> (r: Option<NumericDate>)
        ensures
            r is Some <==> is_number_text(s@),
            r matches Some(d) ==> d.wf() && d@ == s@,
    {
        let n = s.unicode_len();
        match scan_number_in(s, n, 0) {
            Some(j) => {
                assert(s@.subrange(0, n as int) =~= s@);
                if j == n {
                    Some(NumericDate { text: s.to_owned() })
                } else {
                    None
                }
            },
            None => {
                assert(s@.subrange(0, n as int) =~= s@);
                None
            },
        }
    }

    pub(crate) fn from_text(text: String) -> (r: NumericDate)
        requires
            is_number_text(text@),
        ensures
            r.wf(),
            r@ == text@,
    {
        NumericDate { text }
    }

    /// The JSON number.
    pub fn as_str(&self) -> (r: &str)
        ensures
            r@ == self@,
    {
        self.text.as_str()
    }
}

} // verus!
