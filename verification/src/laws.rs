//! What holds of every evaluation, proved from the definition of [`eval`].

use crate::error::{Access, EvalFailure};
use crate::json::{
    all_well_formed, field_values, fields_well_formed, find_field, or_null, JsonView,
};
use crate::token::{
    eval, eval_each, fan_out, results_well_formed, singles, OutputView, TokenView,
};
use vstd::prelude::*;

verus! {

/// A sequence of one token, once its token is dealt with, has nothing left.
proof fn lemma_one_token(t: TokenView)
    ensures
        seq![t].len() == 1,
        seq![t][0] == t,
        seq![t].drop_first() == Seq::<TokenView>::empty(),
{
}

/// With no token to apply, the result is the value itself.
pub proof fn law_no_token(v: JsonView)
    ensures
        eval(v, Seq::empty()) == Ok::<OutputView, EvalFailure>(OutputView::Single(v)),
{
}

/// The identity token gives back the value it is applied to.
pub proof fn law_identity(v: JsonView)
    ensures
        eval(v, seq![TokenView::Identity]) == Ok::<OutputView, EvalFailure>(
            OutputView::Single(v),
        ),
{
    lemma_one_token(TokenView::Identity);
    reveal_with_fuel(eval, 2);
}

/// An index into an array gives the element at that position, and null
/// where the array has no such position: never a failure.
pub proof fn law_index_of_array(items: Seq<JsonView>, n: nat)
    ensures
        n < items.len() ==> eval(JsonView::Array(items), seq![TokenView::Index(n)]) == Ok::<
            OutputView,
            EvalFailure,
        >(OutputView::Single(items[n as int])),
        n >= items.len() ==> eval(JsonView::Array(items), seq![TokenView::Index(n)]) == Ok::<
            OutputView,
            EvalFailure,
        >(OutputView::Single(JsonView::Null)),
{
    lemma_one_token(TokenView::Index(n));
    reveal_with_fuel(eval, 2);
}

/// An optional index gives null on whatever is not an array.
pub proof fn law_optional_index_of_non_array(v: JsonView, n: nat)
    requires
        !(v is Array),
    ensures
        eval(v, seq![TokenView::OptionalIndex(n)]) == Ok::<OutputView, EvalFailure>(
            OutputView::Single(JsonView::Null),
        ),
{
    lemma_one_token(TokenView::OptionalIndex(n));
    reveal_with_fuel(eval, 2);
}

/// An optional key gives null on whatever is not an object.
pub proof fn law_optional_key_of_non_object(v: JsonView, name: Seq<char>)
    requires
        !(v is Object),
    ensures
        eval(v, seq![TokenView::OptionalKey(name)]) == Ok::<OutputView, EvalFailure>(
            OutputView::Single(JsonView::Null),
        ),
{
    lemma_one_token(TokenView::OptionalKey(name));
    reveal_with_fuel(eval, 2);
}

/// An index that is not optional fails on whatever is not an array,
/// whatever follows it.
pub proof fn law_index_of_non_array(v: JsonView, n: nat, rest: Seq<TokenView>)
    requires
        !(v is Array),
    ensures
        eval(v, seq![TokenView::Index(n)]) == Err::<OutputView, EvalFailure>(
            EvalFailure::TypeMismatch(Access::Index),
        ),
        eval(v, seq![TokenView::Index(n)] + rest) == Err::<OutputView, EvalFailure>(
            EvalFailure::TypeMismatch(Access::Index),
        ),
        eval(v, seq![TokenView::IterateIndex(n)] + rest) == Err::<OutputView, EvalFailure>(
            EvalFailure::TypeMismatch(Access::Index),
        ),
{
}

/// A key that is not optional fails on whatever is not an object, whatever
/// follows it.
pub proof fn law_key_of_non_object(v: JsonView, name: Seq<char>, rest: Seq<TokenView>)
    requires
        !(v is Object),
    ensures
        eval(v, seq![TokenView::Key(name)]) == Err::<OutputView, EvalFailure>(
            EvalFailure::TypeMismatch(Access::Key),
        ),
        eval(v, seq![TokenView::Key(name)] + rest) == Err::<OutputView, EvalFailure>(
            EvalFailure::TypeMismatch(Access::Key),
        ),
        eval(v, seq![TokenView::IterateKey(name)] + rest) == Err::<OutputView, EvalFailure>(
            EvalFailure::TypeMismatch(Access::Key),
        ),
{
}

/// Whether `tokens` can be applied to each of the first `k` of `members`.
pub open spec fn first_succeed(members: Seq<JsonView>, tokens: Seq<TokenView>, k: int) -> bool {
    forall|i: int| 0 <= i < k ==> (#[trigger] eval(members[i], tokens)) is Ok
}

/// A fan-out applies the tokens to each member by itself. Its children are
/// the results of the members, one each and in their order; and where it
/// fails, it fails as the first member that fails does.
pub proof fn law_fan_out_members(members: Seq<JsonView>, tokens: Seq<TokenView>)
    ensures
        match eval_each(members, tokens) {
            Ok(children) => children.len() == members.len() && forall|i: int|
                0 <= i < members.len() ==> (#[trigger] eval(members[i], tokens)) == Ok::<
                    OutputView,
                    EvalFailure,
                >(children[i]),
            Err(e) => exists|k: int|
                0 <= k < members.len() && first_succeed(members, tokens, k) && (#[trigger] eval(
                    members[k],
                    tokens,
                )) == Err::<OutputView, EvalFailure>(e),
        },
    decreases members.len(),
{
    if members.len() > 0 {
        let tail = members.drop_first();
        law_fan_out_members(tail, tokens);
        assert forall|i: int| 0 <= i < tail.len() implies #[trigger] tail[i] == members[i + 1] by {}
        assert forall|i: int| 0 < i < members.len() implies #[trigger] members[i] == tail[i - 1] by {}
        match eval(members[0], tokens) {
            Ok(first) => match eval_each(tail, tokens) {
                Ok(others) => {
                    let children = seq![first] + others;
                    assert forall|i: int| 0 <= i < members.len() implies (#[trigger] eval(
                        members[i],
                        tokens,
                    )) == Ok::<OutputView, EvalFailure>(children[i]) by {
                        if i > 0 {
                            assert(eval(tail[i - 1], tokens) == Ok::<OutputView, EvalFailure>(
                                others[i - 1],
                            ));
                        }
                    }
                },
                Err(e) => {
                    let k = choose|k: int|
                        0 <= k < tail.len() && first_succeed(tail, tokens, k) && (#[trigger] eval(
                            tail[k],
                            tokens,
                        )) == Err::<OutputView, EvalFailure>(e);
                    assert forall|i: int| 0 <= i < k + 1 implies (#[trigger] eval(
                        members[i],
                        tokens,
                    )) is Ok by {
                        if i > 0 {
                            assert(eval(tail[i - 1], tokens) is Ok);
                        }
                    }
                    assert(first_succeed(members, tokens, k + 1));
                    assert(eval(members[k + 1], tokens) == Err::<OutputView, EvalFailure>(e));
                },
            },
            Err(e) => {
                assert(first_succeed(members, tokens, 0));
                assert(eval(members[0], tokens) == Err::<OutputView, EvalFailure>(e));
            },
        }
    }
}

/// With no token left, each member of a fan-out is a result of its own, in
/// the order of the members.
pub proof fn lemma_each_member_alone(members: Seq<JsonView>)
    ensures
        eval_each(members, Seq::empty()) == Ok::<Seq<OutputView>, EvalFailure>(singles(members)),
    decreases members.len(),
{
    if members.len() == 0 {
        assert(singles(members) =~= Seq::empty());
    } else {
        let none = Seq::<TokenView>::empty();
        lemma_each_member_alone(members.drop_first());
        assert(seq![OutputView::Single(members[0])] + singles(members.drop_first())
            =~= singles(members));
        assert(eval(members[0], none) == Ok::<OutputView, EvalFailure>(
            OutputView::Single(members[0]),
        ));
    }
}

/// A fan-out keeps the order: over an array it gives its elements, one
/// result each, first to last.
pub proof fn law_iterate_keeps_order(items: Seq<JsonView>)
    ensures
        eval(JsonView::Array(items), seq![TokenView::Iterate]) == Ok::<OutputView, EvalFailure>(
            OutputView::Multiple(singles(items)),
        ),
{
    lemma_one_token(TokenView::Iterate);
    lemma_each_member_alone(items);
    assert(fan_out(JsonView::Array(items), Seq::empty()) == Ok::<OutputView, EvalFailure>(
        OutputView::Multiple(singles(items)),
    ));
}

/// Over an object a fan-out gives the values of the fields, in the order of
/// the fields; the names are dropped.
pub proof fn law_iterate_drops_names(fields: Seq<(Seq<char>, JsonView)>)
    ensures
        eval(JsonView::Object(fields), seq![TokenView::Iterate]) == Ok::<OutputView, EvalFailure>(
            OutputView::Multiple(singles(field_values(fields))),
        ),
{
    lemma_one_token(TokenView::Iterate);
    lemma_each_member_alone(field_values(fields));
    assert(fan_out(JsonView::Object(fields), Seq::empty()) == Ok::<OutputView, EvalFailure>(
        OutputView::Multiple(singles(field_values(fields))),
    ));
}

/// A fan-out fails on a scalar, whatever follows it.
pub proof fn law_iterate_of_scalar(v: JsonView, rest: Seq<TokenView>)
    requires
        v.is_scalar(),
    ensures
        eval(v, seq![TokenView::Iterate]) == Err::<OutputView, EvalFailure>(
            EvalFailure::NotIterable,
        ),
        eval(v, seq![TokenView::Iterate] + rest) == Err::<OutputView, EvalFailure>(
            EvalFailure::NotIterable,
        ),
        fan_out(v, rest) == Err::<OutputView, EvalFailure>(EvalFailure::NotIterable),
{
    lemma_one_token(TokenView::Iterate);
    assert(fan_out(v, Seq::empty()) == Err::<OutputView, EvalFailure>(EvalFailure::NotIterable));
    assert((seq![TokenView::Iterate] + rest).drop_first() =~= rest);
}

/// An array construction gives one value: the array built from what its
/// tokens give. A single result is wrapped in an array of one element, a
/// fan-out becomes the array of its children.
pub proof fn law_array_construction(v: JsonView, inner: Seq<TokenView>)
    ensures
        eval(v, seq![TokenView::Array(inner)]) == match eval(v, inner) {
            Ok(built) => Ok::<OutputView, EvalFailure>(OutputView::Single(built.wrap())),
            Err(e) => Err(e),
        },
        eval(v, inner) matches Ok(OutputView::Single(found)) ==> eval(
            v,
            seq![TokenView::Array(inner)],
        ) == Ok::<OutputView, EvalFailure>(OutputView::Single(JsonView::Array(seq![found]))),
{
    lemma_one_token(TokenView::Array(inner));
    reveal_with_fuel(eval, 2);
}

/// A field of a well-formed value is well formed.
proof fn lemma_field_well_formed(fields: Seq<(Seq<char>, JsonView)>, name: Seq<char>)
    requires
        fields_well_formed(fields),
    ensures
        or_null(find_field(fields, name)).well_formed(),
    decreases fields.len(),
{
    if fields.len() > 0 && fields[0].0 != name {
        let tail = fields.drop_first();
        assert forall|i: int| 0 <= i < tail.len() implies (#[trigger] tail[i]).1.well_formed() by {
        }
        lemma_field_well_formed(tail, name);
    }
}

/// What is read out of a well-formed value is well formed: a field, an
/// element, and each member.
pub proof fn law_parts_well_formed(v: JsonView, name: Seq<char>, n: int)
    requires
        v.well_formed(),
    ensures
        or_null(v.get_key(name)).well_formed(),
        or_null(v.get_index(n)).well_formed(),
        v.members() matches Some(members) ==> all_well_formed(members),
{
    match v {
        JsonView::Object(fields) => {
            lemma_field_well_formed(fields, name);
            assert forall|i: int| 0 <= i < fields.len() implies (#[trigger] field_values(
                fields,
            )[i]).well_formed() by {
            }
        },
        _ => {},
    }
}

/// The value built from a well-formed result is well formed.
pub proof fn law_unwrap_well_formed(output: OutputView)
    requires
        output.well_formed(),
    ensures
        output.unwrap().well_formed(),
        output.wrap().well_formed(),
    decreases output,
{
    match output {
        OutputView::Single(v) => {
        },
        OutputView::Multiple(children) => {
            assert forall|i: int| 0 <= i < children.len() implies (
            #[trigger] output.unwrap()->Array_0[i]).well_formed() by {
                law_unwrap_well_formed(children[i]);
            }
        },
    }
}

/// Evaluation keeps values well formed: every value in the result of
/// applying tokens to a well-formed value is well formed.
pub proof fn law_eval_keeps_well_formed(v: JsonView, tokens: Seq<TokenView>)
    requires
        v.well_formed(),
    ensures
        eval(v, tokens) matches Ok(output) ==> output.well_formed(),
    decreases tokens, 0nat, 0nat,
{
    if tokens.len() > 0 {
        let rest = tokens.drop_first();
        match tokens[0] {
            TokenView::Identity => {
                law_eval_keeps_well_formed(v, rest);
            },
            TokenView::Key(name) | TokenView::OptionalKey(name) => {
                law_parts_well_formed(v, name, 0);
                law_eval_keeps_well_formed(or_null(v.get_key(name)), rest);
            },
            TokenView::Index(n) | TokenView::OptionalIndex(n) => {
                law_parts_well_formed(v, Seq::empty(), n as int);
                law_eval_keeps_well_formed(or_null(v.get_index(n as int)), rest);
            },
            TokenView::IterateKey(name) | TokenView::IterateOptionalKey(name) => {
                law_parts_well_formed(v, name, 0);
                lemma_fan_out_keeps_well_formed(or_null(v.get_key(name)), rest);
            },
            TokenView::IterateIndex(n) | TokenView::IterateOptionalIndex(n) => {
                law_parts_well_formed(v, Seq::empty(), n as int);
                lemma_fan_out_keeps_well_formed(or_null(v.get_index(n as int)), rest);
            },
            TokenView::Iterate => {
                lemma_fan_out_keeps_well_formed(v, rest);
            },
            TokenView::Array(inner) => {
                law_eval_keeps_well_formed(v, inner);
                if let Ok(built) = eval(v, inner) {
                    law_unwrap_well_formed(built);
                    law_eval_keeps_well_formed(built.wrap(), rest);
                }
            },
        }
    }
}

/// A fan-out keeps values well formed.
proof fn lemma_fan_out_keeps_well_formed(v: JsonView, tokens: Seq<TokenView>)
    requires
        v.well_formed(),
    ensures
        fan_out(v, tokens) matches Ok(output) ==> output.well_formed(),
    decreases tokens, 2nat, 0nat,
{
    law_parts_well_formed(v, Seq::empty(), 0);
    if let Some(members) = v.members() {
        lemma_each_keeps_well_formed(members, tokens);
    }
}

/// Applying tokens to each of several well-formed values keeps them well
/// formed.
proof fn lemma_each_keeps_well_formed(members: Seq<JsonView>, tokens: Seq<TokenView>)
    requires
        all_well_formed(members),
    ensures
        eval_each(members, tokens) matches Ok(children) ==> results_well_formed(children),
    decreases tokens, 1nat, members.len(),
{
    if members.len() > 0 {
        let tail = members.drop_first();
        law_eval_keeps_well_formed(members[0], tokens);
        assert forall|i: int| 0 <= i < tail.len() implies (#[trigger] tail[i]).well_formed() by {
        }
        lemma_each_keeps_well_formed(tail, tokens);
    }
}

} // verus!
