//! The claim set of a workflow's identity token, and its JSON form.
use vstd::prelude::*;
use crate::json::{
    is_number_text, lemma_parsed_number, parse_value, read_value, Value, ValueModel,
    MAX_DEPTH,
};
use crate::text::{push_char, quoted, read_string, same_text, skip_ws, skip_ws_at, unescape, write_quoted};
use vstd::string::*;
use crate::values::{NumericDate, RunnerEnvironment, Visibility};

verus! {

/// How many claims the record holds.
pub const FIELD_COUNT: usize = 29;

/// What a claim holds on the wire.
pub enum FieldKind {
    /// A string that must be present.
    Text,
    /// A string that may be absent or `null`.
    Optional,
    /// A number that must be present.
    Date,
    /// A visibility tag.
    Vis,
    /// A runner environment tag.
    Runner,
}

/// The claims of one token, in the order in which they are written. This is
/// the latest layout of the claim set: the header-like `alg`, `kid` and `typ`
/// of older layouts are not part of it, and a decoder passes them over like any
/// other key that no claim has.
#[derive(Debug, Clone, PartialEq)]
pub struct Claims {
    /// Audience: who the token is meant for.
    pub aud: String,
    /// Issuer of the token.
    pub iss: String,
    /// Subject, matched by the party that trusts the token.
    pub sub: String,
    /// Expiry time.
    pub exp: NumericDate,
    /// Time of issue.
    pub iat: NumericDate,
    /// Identifier of this token.
    pub jti: String,
    /// Time before which the token is not valid.
    pub nbf: NumericDate,
    /// The account that started the workflow run.
    pub actor: String,
    /// The identifier of that account.
    pub actor_id: String,
    /// The target branch of a pull request.
    pub base_ref: String,
    /// The environment that the job refers to, if any.
    pub environment: Option<String>,
    /// The event that started the workflow run.
    pub event_name: String,
    /// The source branch of a pull request.
    pub head_ref: String,
    /// The ref path to the reusable workflow, for a job that uses one.
    pub job_workflow_ref: Option<String>,
    /// The commit of the reusable workflow file, for a job that uses one.
    pub job_workflow_sha: Option<String>,
    /// The git ref that started the run; its key on the wire is `ref`, a word that Rust reserves.
    pub git_ref: String,
    /// The kind of ref, such as `branch`.
    pub ref_type: String,
    /// Visibility of the repository.
    pub repository_visibility: Visibility,
    /// The repository that the workflow runs from.
    pub repository: String,
    /// The identifier of that repository.
    pub repository_id: String,
    /// The owner of the repository.
    pub repository_owner: String,
    /// The identifier of that owner.
    pub repository_owner_id: String,
    /// The identifier of the workflow run.
    pub run_id: String,
    /// How many times this workflow has run.
    pub run_number: String,
    /// How many times this run has been tried.
    pub run_attempt: String,
    /// The kind of runner the job runs on.
    pub runner_environment: RunnerEnvironment,
    /// The name of the workflow.
    pub workflow: String,
    /// The ref path to the workflow file.
    pub workflow_ref: String,
    /// The commit of the workflow file.
    pub workflow_sha: String,
}

/// The key of claim `i` on the wire.
pub open spec fn field_name(i: int) -> Seq<char> {
    if i == 0 {
        "aud"@
    } else if i == 1 {
        "iss"@
    } else if i == 2 {
        "sub"@
    } else if i == 3 {
        "exp"@
    } else if i == 4 {
        "iat"@
    } else if i == 5 {
        "jti"@
    } else if i == 6 {
        "nbf"@
    } else if i == 7 {
        "actor"@
    } else if i == 8 {
        "actor_id"@
    } else if i == 9 {
        "base_ref"@
    } else if i == 10 {
        "environment"@
    } else if i == 11 {
        "event_name"@
    } else if i == 12 {
        "head_ref"@
    } else if i == 13 {
        "job_workflow_ref"@
    } else if i == 14 {
        "job_workflow_sha"@
    } else if i == 15 {
        "ref"@
    } else if i == 16 {
        "ref_type"@
    } else if i == 17 {
        "repository_visibility"@
    } else if i == 18 {
        "repository"@
    } else if i == 19 {
        "repository_id"@
    } else if i == 20 {
        "repository_owner"@
    } else if i == 21 {
        "repository_owner_id"@
    } else if i == 22 {
        "run_id"@
    } else if i == 23 {
        "run_number"@
    } else if i == 24 {
        "run_attempt"@
    } else if i == 25 {
        "runner_environment"@
    } else if i == 26 {
        "workflow"@
    } else if i == 27 {
        "workflow_ref"@
    } else {
        "workflow_sha"@
    }
}

/// Why a text is not the JSON form of a claim set.
#[derive(Debug, Clone, Copy, PartialEq, Eq, Structural)]
pub enum DecodeError {
    /// The text is not one JSON object.
    Malformed,
    /// The claim with this index in the field table appears twice.
    DuplicateField(usize),
    /// The required claim with this index in the field table is absent.
    MissingField(usize),
    /// The claim with this index in the field table holds a value of another type.
    WrongType(usize),
}

impl DecodeError {
    /// The index in the field table of the claim that the error is about.
    pub open spec fn index(&self) -> Option<int> {
        match self {
            DecodeError::Malformed => None,
            DecodeError::DuplicateField(i) => Some(*i as int),
            DecodeError::MissingField(i) => Some(*i as int),
            DecodeError::WrongType(i) => Some(*i as int),
        }
    }

    /// The key of the claim that the error is about, if it is about one.
    pub fn field(&self) -> (r: Option<&'static str>)
        ensures
            r matches Some(k) <==> (self.index() matches Some(i) && i < FIELD_COUNT),
            r matches Some(k) ==> k@ == field_name(self.index()->Some_0),
    {
        let i = match self {
            DecodeError::Malformed => return None,
            DecodeError::DuplicateField(i) => *i,
            DecodeError::MissingField(i) => *i,
            DecodeError::WrongType(i) => *i,
        };
        if i < FIELD_COUNT {
            Some(wire_name(i))
        } else {
            None
        }
    }
}

/// What claim `i` holds.
pub open spec fn field_kind(i: int) -> FieldKind {
    if i == 3 || i == 4 || i == 6 {
        FieldKind::Date
    } else if i == 10 || i == 13 || i == 14 {
        FieldKind::Optional
    } else if i == 17 {
        FieldKind::Vis
    } else if i == 25 {
        FieldKind::Runner
    } else {
        FieldKind::Text
    }
}

/// The key of claim `i` on the wire.
pub fn wire_name(i: usize) -> (r: &'static str)
    requires
        i < FIELD_COUNT,
    ensures
        r@ == field_name(i as int),
{
    if i == 0 {
        "aud"
    } else if i == 1 {
        "iss"
    } else if i == 2 {
        "sub"
    } else if i == 3 {
        "exp"
    } else if i == 4 {
        "iat"
    } else if i == 5 {
        "jti"
    } else if i == 6 {
        "nbf"
    } else if i == 7 {
        "actor"
    } else if i == 8 {
        "actor_id"
    } else if i == 9 {
        "base_ref"
    } else if i == 10 {
        "environment"
    } else if i == 11 {
        "event_name"
    } else if i == 12 {
        "head_ref"
    } else if i == 13 {
        "job_workflow_ref"
    } else if i == 14 {
        "job_workflow_sha"
    } else if i == 15 {
        "ref"
    } else if i == 16 {
        "ref_type"
    } else if i == 17 {
        "repository_visibility"
    } else if i == 18 {
        "repository"
    } else if i == 19 {
        "repository_id"
    } else if i == 20 {
        "repository_owner"
    } else if i == 21 {
        "repository_owner_id"
    } else if i == 22 {
        "run_id"
    } else if i == 23 {
        "run_number"
    } else if i == 24 {
        "run_attempt"
    } else if i == 25 {
        "runner_environment"
    } else if i == 26 {
        "workflow"
    } else if i == 27 {
        "workflow_ref"
    } else {
        "workflow_sha"
    }
}

pub open spec fn opt_text(o: Option<String>) -> Option<ValueModel> {
    match o {
        Some(s) => Some(ValueModel::Text(s@)),
        None => None,
    }
}

impl Claims {
    /// What claim `i` holds on the wire; `None` for an absent optional claim.
    pub open spec fn slot(&self, i: int) -> Option<ValueModel> {
        if i == 0 {
            Some(ValueModel::Text(self.aud@))
        } else if i == 1 {
            Some(ValueModel::Text(self.iss@))
        } else if i == 2 {
            Some(ValueModel::Text(self.sub@))
        } else if i == 3 {
            Some(ValueModel::Number(self.exp@))
        } else if i == 4 {
            Some(ValueModel::Number(self.iat@))
        } else if i == 5 {
            Some(ValueModel::Text(self.jti@))
        } else if i == 6 {
            Some(ValueModel::Number(self.nbf@))
        } else if i == 7 {
            Some(ValueModel::Text(self.actor@))
        } else if i == 8 {
            Some(ValueModel::Text(self.actor_id@))
        } else if i == 9 {
            Some(ValueModel::Text(self.base_ref@))
        } else if i == 10 {
            opt_text(self.environment)
        } else if i == 11 {
            Some(ValueModel::Text(self.event_name@))
        } else if i == 12 {
            Some(ValueModel::Text(self.head_ref@))
        } else if i == 13 {
            opt_text(self.job_workflow_ref)
        } else if i == 14 {
            opt_text(self.job_workflow_sha)
        } else if i == 15 {
            Some(ValueModel::Text(self.git_ref@))
        } else if i == 16 {
            Some(ValueModel::Text(self.ref_type@))
        } else if i == 17 {
            Some(ValueModel::Text(self.repository_visibility@))
        } else if i == 18 {
            Some(ValueModel::Text(self.repository@))
        } else if i == 19 {
            Some(ValueModel::Text(self.repository_id@))
        } else if i == 20 {
            Some(ValueModel::Text(self.repository_owner@))
        } else if i == 21 {
            Some(ValueModel::Text(self.repository_owner_id@))
        } else if i == 22 {
            Some(ValueModel::Text(self.run_id@))
        } else if i == 23 {
            Some(ValueModel::Text(self.run_number@))
        } else if i == 24 {
            Some(ValueModel::Text(self.run_attempt@))
        } else if i == 25 {
            Some(ValueModel::Text(self.runner_environment@))
        } else if i == 26 {
            Some(ValueModel::Text(self.workflow@))
        } else if i == 27 {
            Some(ValueModel::Text(self.workflow_ref@))
        } else {
            Some(ValueModel::Text(self.workflow_sha@))
        }
    }

    /// The dates are JSON numbers and the tags are held by their known variants.
    pub open spec fn wf(&self) -> bool {
        self.exp.wf() && self.iat.wf() && self.nbf.wf() && self.repository_visibility.wf()
            && self.runner_environment.wf()
    }

    /// What claim `i` holds on the wire: its text and whether it is a string
    /// (else a number); `None` for an absent optional claim.
    pub fn wire_slot(&self, i: usize) -> (r: Option<(&str, bool)>)
        requires
            i < FIELD_COUNT,
        ensures
            match r {
                None => self.slot(i as int) is None,
                Some((x, true)) => self.slot(i as int) == Some(ValueModel::Text(x@)),
                Some((x, false)) => self.slot(i as int) == Some(ValueModel::Number(x@)),
            },
    {
        if i == 0 {
            Some((self.aud.as_str(), true))
        } else if i == 1 {
            Some((self.iss.as_str(), true))
        } else if i == 2 {
            Some((self.sub.as_str(), true))
        } else if i == 3 {
            Some((self.exp.as_str(), false))
        } else if i == 4 {
            Some((self.iat.as_str(), false))
        } else if i == 5 {
            Some((self.jti.as_str(), true))
        } else if i == 6 {
            Some((self.nbf.as_str(), false))
        } else if i == 7 {
            Some((self.actor.as_str(), true))
        } else if i == 8 {
            Some((self.actor_id.as_str(), true))
        } else if i == 9 {
            Some((self.base_ref.as_str(), true))
        } else if i == 10 {
            match &self.environment {
                Some(s) => Some((s.as_str(), true)),
                None => None,
            }
        } else if i == 11 {
            Some((self.event_name.as_str(), true))
        } else if i == 12 {
            Some((self.head_ref.as_str(), true))
        } else if i == 13 {
            match &self.job_workflow_ref {
                Some(s) => Some((s.as_str(), true)),
                None => None,
            }
        } else if i == 14 {
            match &self.job_workflow_sha {
                Some(s) => Some((s.as_str(), true)),
                None => None,
            }
        } else if i == 15 {
            Some((self.git_ref.as_str(), true))
        } else if i == 16 {
            Some((self.ref_type.as_str(), true))
        } else if i == 17 {
            Some((self.repository_visibility.as_wire(), true))
        } else if i == 18 {
            Some((self.repository.as_str(), true))
        } else if i == 19 {
            Some((self.repository_id.as_str(), true))
        } else if i == 20 {
            Some((self.repository_owner.as_str(), true))
        } else if i == 21 {
            Some((self.repository_owner_id.as_str(), true))
        } else if i == 22 {
            Some((self.run_id.as_str(), true))
        } else if i == 23 {
            Some((self.run_number.as_str(), true))
        } else if i == 24 {
            Some((self.run_attempt.as_str(), true))
        } else if i == 25 {
            Some((self.runner_environment.as_wire(), true))
        } else if i == 26 {
            Some((self.workflow.as_str(), true))
        } else if i == 27 {
            Some((self.workflow_ref.as_str(), true))
        } else {
            Some((self.workflow_sha.as_str(), true))
        }
    }
}

impl View for Claims {
    type V = Seq<Option<ValueModel>>;

    /// What each claim holds on the wire, in the order of the field table.
    open spec fn view(&self) -> Seq<Option<ValueModel>> {
        Seq::new(FIELD_COUNT as nat, |i: int| self.slot(i))
    }
}

fn kind_of(i: usize) -> (k: FieldKind)
    ensures
        k == field_kind(i as int),
{
    if i == 3 || i == 4 || i == 6 {
        FieldKind::Date
    } else if i == 10 || i == 13 || i == 14 {
        FieldKind::Optional
    } else if i == 17 {
        FieldKind::Vis
    } else if i == 25 {
        FieldKind::Runner
    } else {
        FieldKind::Text
    }
}

/// The first claim from `i` on whose key is `k`.
pub open spec fn find_field(k: Seq<char>, i: int) -> Option<int>
    decreases FIELD_COUNT - i,
{
    if i >= FIELD_COUNT {
        None
    } else if field_name(i) == k {
        Some(i)
    } else {
        find_field(k, i + 1)
    }
}

/// The claim whose key is `k`; `None` for a key that no claim has.
pub open spec fn field_index(k: Seq<char>) -> Option<int> {
    find_field(k, 0)
}

/// The claim whose key is `key`.
pub fn lookup_field(key: &str) -> (r: Option<usize>)
    ensures
        r matches Some(f) ==> f < FIELD_COUNT && field_index(key@) == Some(f as int),
        r is None <==> field_index(key@) is None,
{
    let mut i: usize = 0;
    while i < FIELD_COUNT
        invariant
            i <= FIELD_COUNT,
            field_index(key@) == find_field(key@, i as int),
        decreases FIELD_COUNT - i,
    {
        if same_text(key, wire_name(i)) {
            return Some(i);
        }
        i += 1;
    }
    None
}

/// No claim read so far.
pub open spec fn empty_slots() -> Seq<Option<ValueModel>> {
    Seq::new(FIELD_COUNT as nat, |i: int| None)
}

/// Reads the members of a JSON object from the key of one member on, filling
/// `slots` with the values of known keys; other keys are read and passed over.
pub open spec fn read_members(s: Seq<char>, slots: Seq<Option<ValueModel>>) -> Result<
    Seq<Option<ValueModel>>,
    DecodeError,
>
    decreases s.len(), 1nat,
{
    if !(s.len() > 0 && s[0] == '"') {
        Err(DecodeError::Malformed)
    } else {
        match unescape(s.drop_first()) {
            None => Err(DecodeError::Malformed),
            Some((key, r)) => {
                let r = skip_ws(r);
                if !(r.len() > 0 && r[0] == ':') {
                    Err(DecodeError::Malformed)
                } else {
                    match parse_value(skip_ws(r.drop_first()), MAX_DEPTH as nat) {
                        None => Err(DecodeError::Malformed),
                        Some((v, r)) => match field_index(key) {
                            Some(f) => if slots[f] is Some {
                                Err(DecodeError::DuplicateField(f as usize))
                            } else {
                                after_member(skip_ws(r), slots.update(f, Some(v)), s.len())
                            },
                            None => after_member(skip_ws(r), slots, s.len()),
                        },
                    }
                }
            },
        }
    }
}

/// Goes on after a member: a comma and the next member, or the end of the object
/// and of the text. `bound` is the length of the text the member started.
pub open spec fn after_member(r: Seq<char>, slots: Seq<Option<ValueModel>>, bound: nat) -> Result<
    Seq<Option<ValueModel>>,
    DecodeError,
>
    decreases bound, 0nat,
{
    if r.len() > 0 && r[0] == ',' {
        let r2 = skip_ws(r.drop_first());
        if r2.len() < bound {
            read_members(r2, slots)
        } else {
            Err(DecodeError::Malformed)
        }
    } else if r.len() > 0 && r[0] == '}' {
        if skip_ws(r.drop_first()).len() == 0 {
            Ok(slots)
        } else {
            Err(DecodeError::Malformed)
        }
    } else {
        Err(DecodeError::Malformed)
    }
}

/// Reads a whole text as one JSON object: the value of each known key.
pub open spec fn parse_document(t: Seq<char>) -> Result<Seq<Option<ValueModel>>, DecodeError> {
    let s = skip_ws(t);
    if !(s.len() > 0 && s[0] == '{') {
        Err(DecodeError::Malformed)
    } else {
        let r = skip_ws(s.drop_first());
        if r.len() > 0 && r[0] == '}' {
            if skip_ws(r.drop_first()).len() == 0 {
                Ok(empty_slots())
            } else {
                Err(DecodeError::Malformed)
            }
        } else {
            read_members(r, empty_slots())
        }
    }
}

/// Why what was read for claim `i` does not do, if it does not.
pub open spec fn field_error(i: int, v: Option<ValueModel>) -> Option<DecodeError> {
    match v {
        None => if field_kind(i) is Optional {
            None
        } else {
            Some(DecodeError::MissingField(i as usize))
        },
        Some(x) => if (field_kind(i) is Optional && (x is Text || x is Null)) || (field_kind(i) is Date
            && x is Number) || (!(field_kind(i) is Optional) && !(field_kind(i) is Date) && x is Text) {
            None
        } else {
            Some(DecodeError::WrongType(i as usize))
        },
    }
}

/// The error of the first claim from `i` on that does not do.
pub open spec fn first_error(slots: Seq<Option<ValueModel>>, i: int) -> Option<DecodeError>
    decreases FIELD_COUNT - i,
{
    if i >= FIELD_COUNT {
        None
    } else {
        match field_error(i, slots[i]) {
            Some(e) => Some(e),
            None => first_error(slots, i + 1),
        }
    }
}

/// An optional claim given as `null` is absent.
pub open spec fn normalize(v: Option<ValueModel>) -> Option<ValueModel> {
    match v {
        Some(ValueModel::Null) => None,
        _ => v,
    }
}

/// The claims that a JSON text stands for, as the view of `Claims`, or why it
/// stands for none.
pub open spec fn decode_model(t: Seq<char>) -> Result<Seq<Option<ValueModel>>, DecodeError> {
    match parse_document(t) {
        Err(e) => Err(e),
        Ok(slots) => match first_error(slots, 0) {
            Some(e) => Err(e),
            None => Ok(Seq::new(FIELD_COUNT as nat, |i: int| normalize(slots[i]))),
        },
    }
}

pub open spec fn slot_view(v: Option<Value>) -> Option<ValueModel> {
    match v {
        Some(x) => Some(x@),
        None => None,
    }
}

pub open spec fn slots_view(v: Seq<Option<Value>>) -> Seq<Option<ValueModel>> {
    Seq::new(v.len(), |i: int| slot_view(v[i]))
}

/// Every number among `slots` is one JSON number.
pub open spec fn numbers_wf(slots: Seq<Option<ValueModel>>) -> bool {
    forall|i: int| 0 <= i < slots.len() ==> (#[trigger] slots[i] matches Some(ValueModel::Number(x)) ==> is_number_text(x))
}

#[verifier::rlimit(80)]
fn read_document(t: &str) -> (r: Result<Vec<Option<Value>>, DecodeError>)
    ensures
        match r {
            Ok(v) => v@.len() == FIELD_COUNT && parse_document(t@) == Ok::<Seq<Option<ValueModel>>, DecodeError>(slots_view(v@)) && numbers_wf(slots_view(v@)),
            Err(e) => parse_document(t@) == Err::<Seq<Option<ValueModel>>, DecodeError>(e),
        },
{
    let n = t.unicode_len();
    assert(t@.subrange(0, n as int) =~= t@);
    let mut slots: Vec<Option<Value>> = Vec::new();
    while slots.len() < FIELD_COUNT
        invariant
            slots@.len() <= FIELD_COUNT,
            forall|q: int| 0 <= q < slots@.len() ==> slots@[q] is None,
        decreases FIELD_COUNT - slots@.len(),
    {
        slots.push(None);
    }
    assert(slots_view(slots@) =~= empty_slots());
    let s0 = skip_ws_at(t, n, 0);
    if s0 >= n || t.get_char(s0) != '{' {
        if s0 < n {
            assert(t@.subrange(s0 as int, n as int)[0] == t@[s0 as int]);
        }
        return Err(DecodeError::Malformed);
    }
    assert(t@.subrange(s0 as int, n as int)[0] == t@[s0 as int]);
    assert(t@.subrange(s0 as int, n as int).drop_first() =~= t@.subrange(s0 + 1, n as int));
    let mut i = skip_ws_at(t, n, s0 + 1);
    if i < n && t.get_char(i) == '}' {
        assert(t@.subrange(i as int, n as int)[0] == t@[i as int]);
        assert(t@.subrange(i as int, n as int).drop_first() =~= t@.subrange(i + 1, n as int));
        let e = skip_ws_at(t, n, i + 1);
        if e == n {
            return Ok(slots);
        } else {
            return Err(DecodeError::Malformed);
        }
    }
    if i < n {
        assert(t@.subrange(i as int, n as int)[0] == t@[i as int]);
    }
    loop
        invariant
            n == t@.len(),
            i <= n,
            slots@.len() == FIELD_COUNT,
            numbers_wf(slots_view(slots@)),
            parse_document(t@) == read_members(t@.subrange(i as int, n as int), slots_view(slots@)),
        decreases n - i,
    {
        let ghost s = t@.subrange(i as int, n as int);
        let ghost sv = slots_view(slots@);
        if i >= n || t.get_char(i) != '"' {
            if i < n {
                assert(s[0] == t@[i as int]);
            }
            return Err(DecodeError::Malformed);
        }
        assert(s[0] == t@[i as int]);
        assert(s.drop_first() =~= t@.subrange(i + 1, n as int));
        let (key, r0) = match read_string(t, n, i) {
            None => return Err(DecodeError::Malformed),
            Some(p) => p,
        };
        let r1 = skip_ws_at(t, n, r0);
        if r1 >= n || t.get_char(r1) != ':' {
            if r1 < n {
                assert(t@.subrange(r1 as int, n as int)[0] == t@[r1 as int]);
            }
            return Err(DecodeError::Malformed);
        }
        assert(t@.subrange(r1 as int, n as int)[0] == t@[r1 as int]);
        assert(t@.subrange(r1 as int, n as int).drop_first() =~= t@.subrange(r1 + 1, n as int));
        let r2 = skip_ws_at(t, n, r1 + 1);
        let (v, r3) = match read_value(t, n, r2, MAX_DEPTH) {
            None => return Err(DecodeError::Malformed),
            Some(p) => p,
        };
        proof {
            lemma_parsed_number(t@.subrange(r2 as int, n as int), MAX_DEPTH as nat);
        }
        match lookup_field(key.as_str()) {
            Some(f) => {
                if slots[f].is_some() {
                    return Err(DecodeError::DuplicateField(f));
                }
                slots.set(f, Some(v));
                assert(slots_view(slots@) =~= sv.update(f as int, Some(v@)));
            },
            None => {},
        }
        let r4 = skip_ws_at(t, n, r3);
        if r4 < n {
            assert(t@.subrange(r4 as int, n as int)[0] == t@[r4 as int]);
            assert(t@.subrange(r4 as int, n as int).drop_first() =~= t@.subrange(r4 + 1, n as int));
        }
        if r4 < n && t.get_char(r4) == ',' {
            let r5 = skip_ws_at(t, n, r4 + 1);
            if r5 <= i {
                return Err(DecodeError::Malformed);
            }
            i = r5;
        } else if r4 < n && t.get_char(r4) == '}' {
            let e = skip_ws_at(t, n, r4 + 1);
            if e == n {
                return Ok(slots);
            } else {
                return Err(DecodeError::Malformed);
            }
        } else {
            return Err(DecodeError::Malformed);
        }
    }
}

fn check_field(i: usize, v: &Option<Value>) -> (r: Option<DecodeError>)
    requires
        i < FIELD_COUNT,
    ensures
        r == field_error(i as int, slot_view(*v)),
{
    let k = kind_of(i);
    match v {
        None => match k {
            FieldKind::Optional => None,
            _ => Some(DecodeError::MissingField(i)),
        },
        Some(x) => {
            let fits = match k {
                FieldKind::Optional => matches!(x, Value::Text(_)) || matches!(x, Value::Null),
                FieldKind::Date => matches!(x, Value::Number(_)),
                _ => matches!(x, Value::Text(_)),
            };
            if fits {
                None
            } else {
                Some(DecodeError::WrongType(i))
            }
        },
    }
}

fn take_text(slots: &Vec<Option<Value>>, i: usize) -> (r: String)
    requires
        i < slots@.len(),
        slots@[i as int] matches Some(Value::Text(_)),
    ensures
        slot_view(slots@[i as int]) == Some(ValueModel::Text(r@)),
{
    match &slots[i] {
        Some(Value::Text(s)) => s.clone(),
        _ => String::new(),
    }
}

fn take_optional(slots: &Vec<Option<Value>>, i: usize) -> (r: Option<String>)
    requires
        i < slots@.len(),
        slots@[i as int] matches Some(x) ==> x is Text || x is Null,
    ensures
        opt_text(r) == normalize(slot_view(slots@[i as int])),
{
    match &slots[i] {
        Some(Value::Text(s)) => Some(s.clone()),
        _ => None,
    }
}

fn take_date(slots: &Vec<Option<Value>>, i: usize) -> (r: NumericDate)
    requires
        i < slots@.len(),
        slots@[i as int] matches Some(Value::Number(x)) && is_number_text(x@),
    ensures
        r.wf(),
        slot_view(slots@[i as int]) == Some(ValueModel::Number(r@)),
{
    match &slots[i] {
        Some(Value::Number(s)) => NumericDate::from_text(s.clone()),
        _ => NumericDate::from_text(String::new()),
    }
}

fn take_visibility(slots: &Vec<Option<Value>>, i: usize) -> (r: Visibility)
    requires
        i < slots@.len(),
        slots@[i as int] matches Some(Value::Text(_)),
    ensures
        r.wf(),
        slot_view(slots@[i as int]) == Some(ValueModel::Text(r@)),
{
    match &slots[i] {
        Some(Value::Text(s)) => Visibility::from_wire(s.as_str()),
        _ => Visibility::Public,
    }
}

fn take_runner(slots: &Vec<Option<Value>>, i: usize) -> (r: RunnerEnvironment)
    requires
        i < slots@.len(),
        slots@[i as int] matches Some(Value::Text(_)),
    ensures
        r.wf(),
        slot_view(slots@[i as int]) == Some(ValueModel::Text(r@)),
{
    match &slots[i] {
        Some(Value::Text(s)) => RunnerEnvironment::from_wire(s.as_str()),
        _ => RunnerEnvironment::GithubHosted,
    }
}


/// The error of the first claim that does not do, if one does not.
fn check_fields(slots: &Vec<Option<Value>>) -> (r: Option<DecodeError>)
    requires
        slots@.len() == FIELD_COUNT,
    ensures
        r == first_error(slots_view(slots@), 0),
        r is None ==> forall|j: int| 0 <= j < FIELD_COUNT ==> field_error(j, #[trigger] slots_view(slots@)[j]) is None,
{
    let ghost sv = slots_view(slots@);
    let mut i: usize = 0;
    while i < FIELD_COUNT
        invariant
            i <= FIELD_COUNT,
            slots@.len() == FIELD_COUNT,
            sv == slots_view(slots@),
            first_error(sv, 0) == first_error(sv, i as int),
            forall|j: int| 0 <= j < i ==> field_error(j, #[trigger] sv[j]) is None,
        decreases FIELD_COUNT - i,
    {
        if let Some(e) = check_field(i, &slots[i]) {
            return Some(e);
        }
        i += 1;
    }
    None
}

#[verifier::rlimit(60)]
fn build(slots: &Vec<Option<Value>>) -> (c: Claims)
    requires
        slots@.len() == FIELD_COUNT,
        numbers_wf(slots_view(slots@)),
        forall|j: int| 0 <= j < FIELD_COUNT ==> field_error(j, #[trigger] slots_view(slots@)[j]) is None,
    ensures
        c.wf(),
        c@ == Seq::new(FIELD_COUNT as nat, |i: int| normalize(slots_view(slots@)[i])),
{
    let ghost sv = slots_view(slots@);
    proof {
        assert(field_error(0, sv[0]) is None && sv[0] == slot_view(slots@[0]));
        assert(field_error(1, sv[1]) is None && sv[1] == slot_view(slots@[1]));
        assert(field_error(2, sv[2]) is None && sv[2] == slot_view(slots@[2]));
        assert(field_error(3, sv[3]) is None && sv[3] == slot_view(slots@[3]));
        assert(field_error(4, sv[4]) is None && sv[4] == slot_view(slots@[4]));
        assert(field_error(5, sv[5]) is None && sv[5] == slot_view(slots@[5]));
        assert(field_error(6, sv[6]) is None && sv[6] == slot_view(slots@[6]));
        assert(field_error(7, sv[7]) is None && sv[7] == slot_view(slots@[7]));
        assert(field_error(8, sv[8]) is None && sv[8] == slot_view(slots@[8]));
        assert(field_error(9, sv[9]) is None && sv[9] == slot_view(slots@[9]));
        assert(field_error(10, sv[10]) is None && sv[10] == slot_view(slots@[10]));
        assert(field_error(11, sv[11]) is None && sv[11] == slot_view(slots@[11]));
        assert(field_error(12, sv[12]) is None && sv[12] == slot_view(slots@[12]));
        assert(field_error(13, sv[13]) is None && sv[13] == slot_view(slots@[13]));
        assert(field_error(14, sv[14]) is None && sv[14] == slot_view(slots@[14]));
        assert(field_error(15, sv[15]) is None && sv[15] == slot_view(slots@[15]));
        assert(field_error(16, sv[16]) is None && sv[16] == slot_view(slots@[16]));
        assert(field_error(17, sv[17]) is None && sv[17] == slot_view(slots@[17]));
        assert(field_error(18, sv[18]) is None && sv[18] == slot_view(slots@[18]));
        assert(field_error(19, sv[19]) is None && sv[19] == slot_view(slots@[19]));
        assert(field_error(20, sv[20]) is None && sv[20] == slot_view(slots@[20]));
        assert(field_error(21, sv[21]) is None && sv[21] == slot_view(slots@[21]));
        assert(field_error(22, sv[22]) is None && sv[22] == slot_view(slots@[22]));
        assert(field_error(23, sv[23]) is None && sv[23] == slot_view(slots@[23]));
        assert(field_error(24, sv[24]) is None && sv[24] == slot_view(slots@[24]));
        assert(field_error(25, sv[25]) is None && sv[25] == slot_view(slots@[25]));
        assert(field_error(26, sv[26]) is None && sv[26] == slot_view(slots@[26]));
        assert(field_error(27, sv[27]) is None && sv[27] == slot_view(slots@[27]));
        assert(field_error(28, sv[28]) is None && sv[28] == slot_view(slots@[28]));
    }
    let c = Claims {
    aud: take_text(&slots, 0),
    iss: take_text(&slots, 1),
    sub: take_text(&slots, 2),
    exp: take_date(&slots, 3),
    iat: take_date(&slots, 4),
    jti: take_text(&slots, 5),
    nbf: take_date(&slots, 6),
    actor: take_text(&slots, 7),
    actor_id: take_text(&slots, 8),
    base_ref: take_text(&slots, 9),
    environment: take_optional(&slots, 10),
    event_name: take_text(&slots, 11),
    head_ref: take_text(&slots, 12),
    job_workflow_ref: take_optional(&slots, 13),
    job_workflow_sha: take_optional(&slots, 14),
    git_ref: take_text(&slots, 15),
    ref_type: take_text(&slots, 16),
    repository_visibility: take_visibility(&slots, 17),
    repository: take_text(&slots, 18),
    repository_id: take_text(&slots, 19),
    repository_owner: take_text(&slots, 20),
    repository_owner_id: take_text(&slots, 21),
    run_id: take_text(&slots, 22),
    run_number: take_text(&slots, 23),
    run_attempt: take_text(&slots, 24),
    runner_environment: take_runner(&slots, 25),
    workflow: take_text(&slots, 26),
    workflow_ref: take_text(&slots, 27),
    workflow_sha: take_text(&slots, 28),
    };
    assert(c@ =~= Seq::new(FIELD_COUNT as nat, |i: int| normalize(sv[i])));
    c
}

impl Claims {
    /// Reads the claims from their JSON form. Keys that no claim has are read
    /// and passed over; an optional claim may be absent or `null`.
    pub fn decode(t: &str) -> (r: Result<Claims, DecodeError>)
        ensures
            match r {
                Ok(c) => c.wf() && decode_model(t@) == Ok::<Seq<Option<ValueModel>>, DecodeError>(c@),
                Err(e) => decode_model(t@) == Err::<Seq<Option<ValueModel>>, DecodeError>(e),
            },
    {
        let slots = match read_document(t) {
            Ok(v) => v,
            Err(e) => return Err(e),
        };
        match check_fields(&slots) {
            Some(e) => Err(e),
            None => Ok(build(&slots)),
        }
    }
}

/// How a value is written: a string quoted, a number as its text.
pub open spec fn value_text(v: ValueModel) -> Seq<char> {
    match v {
        ValueModel::Text(x) => quoted(x),
        ValueModel::Number(x) => x,
        _ => Seq::empty(),
    }
}

/// How claim `i` with value `v` is written as a member of the object.
pub open spec fn member_text(i: int, v: ValueModel) -> Seq<char> {
    quoted(field_name(i)) + seq![':'] + value_text(v)
}

/// What claim `i` adds to the object: nothing when it is absent, else its
/// member, after a comma but for the first claim.
pub open spec fn piece(m: Seq<Option<ValueModel>>, i: int) -> Seq<char> {
    match m[i] {
        None => Seq::empty(),
        Some(v) => if i == 0 {
            member_text(0, v)
        } else {
            seq![','] + member_text(i, v)
        },
    }
}

/// The members of the claims before `i`.
pub open spec fn pieces_upto(m: Seq<Option<ValueModel>>, i: int) -> Seq<char>
    decreases i,
{
    if i <= 0 {
        Seq::empty()
    } else {
        pieces_upto(m, i - 1) + piece(m, i - 1)
    }
}

/// The JSON form of claims whose view is `m`: one object, its members in the
/// order of the field table, an absent optional claim left out.
pub open spec fn encode_model(m: Seq<Option<ValueModel>>) -> Seq<char> {
    seq!['{'] + pieces_upto(m, FIELD_COUNT as int) + seq!['}']
}

impl Claims {
    /// The JSON form of the claims.
    pub fn encode(&self) -> (r: String)
        ensures
            r@ == encode_model(self@),
    {
        let mut out = String::new();
        push_char(&mut out, '{');
        let mut i: usize = 0;
        while i < FIELD_COUNT
            invariant
                i <= FIELD_COUNT,
                out@ == seq!['{'] + pieces_upto(self@, i as int),
            decreases FIELD_COUNT - i,
        {
            let ghost before = out@;
            assert(self@[i as int] == self.slot(i as int));
            match self.wire_slot(i) {
                None => {
                    assert(out@ =~= seq!['{'] + pieces_upto(self@, i + 1));
                },
                Some((x, is_text)) => {
                    if i > 0 {
                        push_char(&mut out, ',');
                    }
                    write_quoted(&mut out, wire_name(i));
                    push_char(&mut out, ':');
                    if is_text {
                        write_quoted(&mut out, x);
                    } else {
                        out.append(x);
                    }
                    assert(out@ =~= seq!['{'] + pieces_upto(self@, i + 1));
                },
            }
            i += 1;
        }
        push_char(&mut out, '}');
        out
    }
}

/// A run of digits that does not start with a zero is one JSON number.
proof fn lemma_digits_number(x: Seq<char>)
    requires
        x.len() > 0,
        x[0] != '0',
        forall|k: int| 0 <= k < x.len() ==> crate::json::is_digit(#[trigger] x[k]),
    ensures
        is_number_text(x),
{
    lemma_digit_run_all(x, 0);
}

proof fn lemma_digit_run_all(x: Seq<char>, k: int)
    requires
        0 <= k <= x.len(),
        forall|q: int| 0 <= q < x.len() ==> crate::json::is_digit(#[trigger] x[q]),
    ensures
        crate::json::digit_run(x, k) == x.len() - k,
    decreases x.len() - k,
{
    if k < x.len() {
        lemma_digit_run_all(x, k + 1);
    }
}

fn date_of_digits(s: &str) -> (r: NumericDate)
    requires
        s@.len() > 0,
        s@[0] != '0',
        forall|k: int| 0 <= k < s@.len() ==> crate::json::is_digit(#[trigger] s@[k]),
    ensures
        r.wf(),
        r@ == s@,
{
    proof {
        lemma_digits_number(s@);
    }
    NumericDate::from_text(s.to_owned())
}

impl Claims {
    /// Claims with every required field filled in, for tests to adjust: empty
    /// strings, a far-future expiry, a fixed branch ref, `public` visibility, a
    /// `github-hosted` runner, the first attempt, and no optional claim. They do
    /// not look like the claims of an issued token.
    pub fn make_dummy() -> (r: Claims)
        ensures
            r.wf(),
            r.aud@ == ""@,
            r.iss@ == ""@,
            r.sub@ == ""@,
            r.exp@ == "33247274880"@,
            r.iat@ == "1690366107"@,
            r.jti@ == ""@,
            r.nbf@ == "1690366107"@,
            r.actor@ == ""@,
            r.actor_id@ == ""@,
            r.base_ref@ == ""@,
            r.environment is None,
            r.event_name@ == ""@,
            r.head_ref@ == ""@,
            r.job_workflow_ref is None,
            r.job_workflow_sha is None,
            r.git_ref@ == "refs/heads/main"@,
            r.ref_type@ == "branch"@,
            r.repository_visibility is Public,
            r.repository@ == ""@,
            r.repository_id@ == ""@,
            r.repository_owner@ == ""@,
            r.repository_owner_id@ == ""@,
            r.run_id@ == ""@,
            r.run_number@ == ""@,
            r.run_attempt@ == "1"@,
            r.runner_environment is GithubHosted,
            r.workflow@ == ""@,
            r.workflow_ref@ == ""@,
            r.workflow_sha@ == ""@,
    {
        proof {
            reveal_strlit("33247274880");
            reveal_strlit("1690366107");
        }
        let far_future = date_of_digits("33247274880");
        let issued = date_of_digits("1690366107");
        let issued_again = date_of_digits("1690366107");
        Claims {
            aud: "".to_owned(),
            iss: "".to_owned(),
            sub: "".to_owned(),
            exp: far_future,
            iat: issued,
            jti: "".to_owned(),
            nbf: issued_again,
            actor: "".to_owned(),
            actor_id: "".to_owned(),
            base_ref: "".to_owned(),
            environment: None,
            event_name: "".to_owned(),
            head_ref: "".to_owned(),
            job_workflow_ref: None,
            job_workflow_sha: None,
            git_ref: "refs/heads/main".to_owned(),
            ref_type: "branch".to_owned(),
            repository_visibility: Visibility::Public,
            repository: "".to_owned(),
            repository_id: "".to_owned(),
            repository_owner: "".to_owned(),
            repository_owner_id: "".to_owned(),
            run_id: "".to_owned(),
            run_number: "".to_owned(),
            run_attempt: "1".to_owned(),
            runner_environment: RunnerEnvironment::GithubHosted,
            workflow: "".to_owned(),
            workflow_ref: "".to_owned(),
            workflow_sha: "".to_owned(),
        }
    }
}

} // verus!
