//! Laws of the JSON form of the claims.
use vstd::prelude::*;
use crate::claims::{
    after_member, decode_model, encode_model, field_error, field_index, field_name, find_field, first_error,
    field_kind, member_text, normalize, parse_document, piece, pieces_upto, read_members, value_text, Claims, FIELD_COUNT,
};
use crate::json::{is_number_text, lemma_number_extend, parse_value, ValueModel, MAX_DEPTH};
use crate::values::{is_runner_tag, is_visibility_tag, RunnerEnvironment, Visibility};
use crate::text::{lemma_read_quoted, quoted, skip_ws, unescape};

verus! {

/// Each claim has a key of its own.
pub proof fn lemma_keys_distinct(i: int, j: int)
    requires
        0 <= j < i < FIELD_COUNT,
    ensures
        field_name(i) != field_name(j),
{
    reveal_strlit("aud");
    reveal_strlit("iss");
    reveal_strlit("sub");
    reveal_strlit("exp");
    reveal_strlit("iat");
    reveal_strlit("jti");
    reveal_strlit("nbf");
    reveal_strlit("actor");
    reveal_strlit("actor_id");
    reveal_strlit("base_ref");
    reveal_strlit("environment");
    reveal_strlit("event_name");
    reveal_strlit("head_ref");
    reveal_strlit("job_workflow_ref");
    reveal_strlit("job_workflow_sha");
    reveal_strlit("ref");
    reveal_strlit("ref_type");
    reveal_strlit("repository_visibility");
    reveal_strlit("repository");
    reveal_strlit("repository_id");
    reveal_strlit("repository_owner");
    reveal_strlit("repository_owner_id");
    reveal_strlit("run_id");
    reveal_strlit("run_number");
    reveal_strlit("run_attempt");
    reveal_strlit("runner_environment");
    reveal_strlit("workflow");
    reveal_strlit("workflow_ref");
    reveal_strlit("workflow_sha");
    if field_name(i) == field_name(j) {
        assert(field_name(i).len() == field_name(j).len());
        assert(field_name(i)[0] == field_name(j)[0]);
        assert(field_name(i)[1] == field_name(j)[1]);
        assert(field_name(i)[2] == field_name(j)[2]);
        assert(field_name(i)[field_name(i).len() - 1] == field_name(j)[field_name(j).len() - 1]);
        assert(false);
    }
}

proof fn lemma_find_field(i: int, j: int)
    requires
        0 <= j <= i < FIELD_COUNT,
    ensures
        find_field(field_name(i), j) == Some(i),
    decreases i - j,
{
    if j < i {
        lemma_keys_distinct(i, j);
        lemma_find_field(i, j + 1);
    }
}

/// The key of claim `i` leads back to claim `i`.
pub proof fn lemma_field_index(i: int)
    requires
        0 <= i < FIELD_COUNT,
    ensures
        field_index(field_name(i)) == Some(i),
{
    lemma_find_field(i, 0);
}

/// The views of claims that can be written: each claim present or absent as
/// its kind allows, of the type its kind needs, no `null`, every number one
/// JSON number.
pub open spec fn model_ok(m: Seq<Option<ValueModel>>) -> bool {
    &&& m.len() == FIELD_COUNT
    &&& forall|i: int|
        0 <= i < FIELD_COUNT ==> field_error(i, #[trigger] m[i]) is None && !(m[i] matches Some(ValueModel::Null))
            && (m[i] matches Some(ValueModel::Number(x)) ==> is_number_text(x))
}

/// The claims of `m` before `i`; none from `i` on.
pub open spec fn restrict(m: Seq<Option<ValueModel>>, i: int) -> Seq<Option<ValueModel>> {
    Seq::new(FIELD_COUNT as nat, |k: int| if k < i { m[k] } else { None })
}

/// The members of the claims from `i` on.
pub open spec fn pieces_from(m: Seq<Option<ValueModel>>, i: int) -> Seq<char>
    decreases FIELD_COUNT - i,
{
    if i >= FIELD_COUNT {
        Seq::empty()
    } else {
        piece(m, i) + pieces_from(m, i + 1)
    }
}

proof fn lemma_split(m: Seq<Option<ValueModel>>, i: int)
    requires
        0 <= i <= FIELD_COUNT,
    ensures
        pieces_upto(m, i) + pieces_from(m, i) == pieces_upto(m, FIELD_COUNT as int),
    decreases FIELD_COUNT - i,
{
    if i < FIELD_COUNT {
        lemma_split(m, i + 1);
        assert(pieces_upto(m, i) + pieces_from(m, i) =~= pieces_upto(m, i + 1) + pieces_from(m, i + 1));
    } else {
        assert(pieces_upto(m, i) + pieces_from(m, i) =~= pieces_upto(m, i));
    }
}

/// What follows the members before `i` starts with a comma or the closing brace.
proof fn lemma_next_is_separator(m: Seq<Option<ValueModel>>, i: int)
    requires
        1 <= i <= FIELD_COUNT,
    ensures
        (pieces_from(m, i) + seq!['}']).len() > 0,
        (pieces_from(m, i) + seq!['}'])[0] == ',' || (pieces_from(m, i) + seq!['}'])[0] == '}',
    decreases FIELD_COUNT - i,
{
    if i < FIELD_COUNT {
        if m[i] is None {
            assert(pieces_from(m, i) =~= pieces_from(m, i + 1));
            lemma_next_is_separator(m, i + 1);
        } else {
            assert((pieces_from(m, i) + seq!['}'])[0] == piece(m, i)[0]);
        }
    }
}

/// A value written before a comma or closing brace is read back.
proof fn lemma_read_value_text(v: ValueModel, rest: Seq<char>)
    requires
        v is Text || (v matches ValueModel::Number(x) && is_number_text(x)),
        rest.len() > 0,
        rest[0] == ',' || rest[0] == '}',
    ensures
        value_text(v) + rest == skip_ws(value_text(v) + rest),
        parse_value(value_text(v) + rest, MAX_DEPTH as nat) == Some((v, rest)),
{
    match v {
        ValueModel::Text(x) => {
            lemma_read_quoted(x, rest);
        },
        ValueModel::Number(x) => {
            lemma_number_extend(x, rest);
            assert((x + rest).take(x.len() as int) =~= x);
            assert((x + rest).skip(x.len() as int) =~= rest);
        },
        _ => {},
    }
}

/// Reading the member of claim `i` fills its slot and goes on after it.
#[verifier::rlimit(80)]
proof fn lemma_read_member(m: Seq<Option<ValueModel>>, i: int, v: ValueModel)
    requires
        model_ok(m),
        0 <= i < FIELD_COUNT,
        m[i] == Some(v),
    ensures
        read_members(member_text(i, v) + (pieces_from(m, i + 1) + seq!['}']), restrict(m, i)) == after_member(
            pieces_from(m, i + 1) + seq!['}'],
            restrict(m, i + 1),
            (member_text(i, v) + (pieces_from(m, i + 1) + seq!['}'])).len(),
        ),
{
    let rest = pieces_from(m, i + 1) + seq!['}'];
    let s = member_text(i, v) + rest;
    let after_key = seq![':'] + value_text(v) + rest;
    lemma_next_is_separator(m, i + 1);
    assert(field_error(i, m[i]) is None);
    assert(s =~= quoted(field_name(i)) + after_key);
    lemma_read_quoted(field_name(i), after_key);
    assert(unescape(s.drop_first()) == Some((field_name(i), after_key)));
    assert(skip_ws(after_key) == after_key);
    assert(after_key.drop_first() =~= value_text(v) + rest);
    lemma_read_value_text(v, rest);
    lemma_field_index(i);
    assert(restrict(m, i)[i] is None);
    assert(restrict(m, i).update(i, Some(v)) =~= restrict(m, i + 1));
    assert(skip_ws(rest) == rest);
}

/// Reading on from the members before `i` gives all the claims.
proof fn lemma_after_members(m: Seq<Option<ValueModel>>, i: int, bound: nat)
    requires
        model_ok(m),
        1 <= i <= FIELD_COUNT,
        bound >= (pieces_from(m, i) + seq!['}']).len(),
    ensures
        after_member(pieces_from(m, i) + seq!['}'], restrict(m, i), bound) == Ok::<
            Seq<Option<ValueModel>>,
            crate::claims::DecodeError,
        >(m),
    decreases FIELD_COUNT - i,
{
    let t = pieces_from(m, i) + seq!['}'];
    if i == FIELD_COUNT {
        assert(t =~= seq!['}']);
        assert(t.drop_first() =~= Seq::<char>::empty());
        assert(restrict(m, i) =~= m);
    } else {
        match m[i] {
            None => {
                assert(pieces_from(m, i) =~= pieces_from(m, i + 1));
                assert(restrict(m, i) =~= restrict(m, i + 1));
                lemma_after_members(m, i + 1, bound);
            },
            Some(v) => {
                let rest = pieces_from(m, i + 1) + seq!['}'];
                let s = member_text(i, v) + rest;
                assert(t =~= seq![','] + s);
                assert(t.drop_first() =~= s);
                assert(s[0] == '"');
                assert(skip_ws(s) == s);
                lemma_read_member(m, i, v);
                lemma_after_members(m, i + 1, s.len());
            },
        }
    }
}

proof fn lemma_first_error_none(m: Seq<Option<ValueModel>>, i: int)
    requires
        model_ok(m),
        0 <= i <= FIELD_COUNT,
    ensures
        first_error(m, i) is None,
    decreases FIELD_COUNT - i,
{
    if i < FIELD_COUNT {
        assert(field_error(i, m[i]) is None);
        lemma_first_error_none(m, i + 1);
    }
}

/// Decoding the JSON form of claims gives the same claims back.
pub proof fn lemma_decode_encode(m: Seq<Option<ValueModel>>)
    requires
        model_ok(m),
    ensures
        decode_model(encode_model(m)) == Ok::<Seq<Option<ValueModel>>, crate::claims::DecodeError>(m),
{
    let e = encode_model(m);
    lemma_split(m, 0);
    assert(pieces_upto(m, 0) + pieces_from(m, 0) =~= pieces_from(m, 0));
    assert(field_error(0, m[0]) is None);
    let v = m[0]->Some_0;
    let rest = pieces_from(m, 1) + seq!['}'];
    let s = member_text(0, v) + rest;
    assert(e =~= seq!['{'] + s);
    assert(skip_ws(e) == e);
    assert(e.drop_first() =~= s);
    assert(s[0] == '"');
    assert(skip_ws(s) == s);
    assert(restrict(m, 0) =~= crate::claims::empty_slots());
    lemma_read_member(m, 0, v);
    lemma_after_members(m, 1, s.len());
    assert(parse_document(e) == Ok::<Seq<Option<ValueModel>>, crate::claims::DecodeError>(m));
    lemma_first_error_none(m, 0);
    assert(Seq::new(FIELD_COUNT as nat, |i: int| normalize(m[i])) =~= m);
}

/// The view of well-formed claims can be written.
pub proof fn lemma_claims_model_ok(c: Claims)
    requires
        c.wf(),
    ensures
        model_ok(c@),
{
    assert forall|i: int| 0 <= i < FIELD_COUNT implies field_error(i, #[trigger] c@[i]) is None && !(
    c@[i] matches Some(ValueModel::Null)) && (c@[i] matches Some(ValueModel::Number(x)) ==> is_number_text(x)) by {
        assert(c@[i] == c.slot(i));
    }
}

/// Round trip: well-formed claims, encoded and then decoded, come back equal.
pub proof fn lemma_round_trip(c: Claims)
    requires
        c.wf(),
    ensures
        decode_model(encode_model(c@)) == Ok::<Seq<Option<ValueModel>>, crate::claims::DecodeError>(c@),
{
    lemma_claims_model_ok(c);
    lemma_decode_encode(c@);
}

/// A visibility text that is no known tag is decoded into `Other`, holding
/// exactly that text, and is written back as that text.
pub proof fn lemma_unknown_visibility(t: Seq<char>, c: Claims, s: Seq<char>)
    requires
        parse_document(t) matches Ok(slots) && slots[17] == Some(ValueModel::Text(s)),
        !is_visibility_tag(s),
        decode_model(t) == Ok::<Seq<Option<ValueModel>>, crate::claims::DecodeError>(c@),
        c.wf(),
    ensures
        c.repository_visibility matches Visibility::Other(x) && x@ == s,
        decode_model(encode_model(c@)) matches Ok(m) && m[17] == Some(ValueModel::Text(s)),
{
    assert(c@[17] == c.slot(17));
    lemma_round_trip(c);
}

/// A runner environment text that is no known tag is decoded into `Other`,
/// holding exactly that text, and is written back as that text.
pub proof fn lemma_unknown_runner(t: Seq<char>, c: Claims, s: Seq<char>)
    requires
        parse_document(t) matches Ok(slots) && slots[25] == Some(ValueModel::Text(s)),
        !is_runner_tag(s),
        decode_model(t) == Ok::<Seq<Option<ValueModel>>, crate::claims::DecodeError>(c@),
        c.wf(),
    ensures
        c.runner_environment matches RunnerEnvironment::Other(x) && x@ == s,
        decode_model(encode_model(c@)) matches Ok(m) && m[25] == Some(ValueModel::Text(s)),
{
    assert(c@[25] == c.slot(25));
    lemma_round_trip(c);
}

proof fn lemma_first_error_some(slots: Seq<Option<ValueModel>>, i: int, j: int)
    requires
        0 <= j <= i < FIELD_COUNT,
        slots[i] is None,
        !(field_kind(i) is Optional),
    ensures
        first_error(slots, j) matches Some(e) && (e is MissingField || e is WrongType),
    decreases i - j,
{
    if j < i && field_error(j, slots[j]) is None {
        lemma_first_error_some(slots, i, j + 1);
    }
}

/// A document that lacks a required claim is refused with an error of the
/// schema, never given a default.
pub proof fn lemma_missing_required(t: Seq<char>, i: int)
    requires
        0 <= i < FIELD_COUNT,
        !(field_kind(i) is Optional),
        parse_document(t) matches Ok(slots) && slots[i] is None,
    ensures
        decode_model(t) matches Err(e) && (e is MissingField || e is WrongType),
{
    let slots = parse_document(t)->Ok_0;
    lemma_first_error_some(slots, i, 0);
}

/// The git reference is written under the key `ref`, and that key is read into it.
pub proof fn lemma_ref_key(c: Claims)
    ensures
        field_name(15) == "ref"@,
        field_index("ref"@) == Some(15int),
        c@[15] == Some(ValueModel::Text(c.git_ref@)),
{
    lemma_field_index(15);
}

/// A member whose key no claim has is read and passed over: the claims read so
/// far stay as they were, and reading goes on after it.
pub proof fn lemma_unknown_key_passed_over(
    s: Seq<char>,
    slots: Seq<Option<ValueModel>>,
    key: Seq<char>,
    after_key: Seq<char>,
    v: ValueModel,
    after_value: Seq<char>,
)
    requires
        s.len() > 0 && s[0] == '"',
        unescape(s.drop_first()) == Some((key, after_key)),
        field_index(key) is None,
        skip_ws(after_key).len() > 0 && skip_ws(after_key)[0] == ':',
        parse_value(skip_ws(skip_ws(after_key).drop_first()), MAX_DEPTH as nat) == Some((v, after_value)),
    ensures
        read_members(s, slots) == after_member(skip_ws(after_value), slots, s.len()),
{
}

} // verus!
