//! Tokens, the result tree, and the evaluator.

use crate::codec::{error_text, pretty_text, to_string_pretty};
use crate::error::{Access, EvalFailure, FilterError};
use crate::json::{or_null, Json, JsonView};
use vstd::prelude::*;
use vstd::string::StringExecFns;

verus! {

/// One operation of a filter.
#[derive(Debug, PartialEq, Eq)]
pub enum Token<'a> {
    Identity,
    Index(usize),
    OptionalIndex(usize),
    IterateIndex(usize),
    IterateOptionalIndex(usize),
    Key(&'a str),
    OptionalKey(&'a str),
    IterateKey(&'a str),
    IterateOptionalKey(&'a str),
    Iterate,
    Array(Vec<Token<'a>>),
}

/// The mathematical content of a [`Token`].
pub enum TokenView {
    Identity,
    Index(nat),
    OptionalIndex(nat),
    IterateIndex(nat),
    IterateOptionalIndex(nat),
    Key(Seq<char>),
    OptionalKey(Seq<char>),
    IterateKey(Seq<char>),
    IterateOptionalKey(Seq<char>),
    Iterate,
    Array(Seq<TokenView>),
}

impl<'a> Token<'a> {
    /// The mathematical content of the token; `t@` stands for `t.model()`.
    pub open spec fn model(self) -> TokenView
        decreases self,
    {
        match self {
            Token::Identity => TokenView::Identity,
            Token::Index(n) => TokenView::Index(n as nat),
            Token::OptionalIndex(n) => TokenView::OptionalIndex(n as nat),
            Token::IterateIndex(n) => TokenView::IterateIndex(n as nat),
            Token::IterateOptionalIndex(n) => TokenView::IterateOptionalIndex(n as nat),
            Token::Key(name) => TokenView::Key(name@),
            Token::OptionalKey(name) => TokenView::OptionalKey(name@),
            Token::IterateKey(name) => TokenView::IterateKey(name@),
            Token::IterateOptionalKey(name) => TokenView::IterateOptionalKey(name@),
            Token::Iterate => TokenView::Iterate,
            Token::Array(inner) => TokenView::Array(
                Seq::new(
                    inner@.len(),
                    |i: int|
                        if 0 <= i < inner@.len() {
                            inner@[i].model()
                        } else {
                            TokenView::Identity
                        },
                ),
            ),
        }
    }
}

impl<'a> View for Token<'a> {
    type V = TokenView;

    open spec fn view(&self) -> TokenView {
        self.model()
    }
}

impl<'a> DeepView for Token<'a> {
    type V = TokenView;

    open spec fn deep_view(&self) -> TokenView {
        self.model()
    }
}

impl<'a> Clone for Token<'a> {
    fn clone(&self) -> (r: Token<'a>)
        ensures
            r@ == self@,
        decreases self,
    {
        match self {
            Token::Identity => Token::Identity,
            Token::Index(n) => Token::Index(*n),
            Token::OptionalIndex(n) => Token::OptionalIndex(*n),
            Token::IterateIndex(n) => Token::IterateIndex(*n),
            Token::IterateOptionalIndex(n) => Token::IterateOptionalIndex(*n),
            Token::Key(name) => Token::Key(*name),
            Token::OptionalKey(name) => Token::OptionalKey(*name),
            Token::IterateKey(name) => Token::IterateKey(*name),
            Token::IterateOptionalKey(name) => Token::IterateOptionalKey(*name),
            Token::Iterate => Token::Iterate,
            Token::Array(inner) => {
                let mut copy: Vec<Token<'a>> = Vec::new();
                let mut i: usize = 0;
                while i < inner.len()
                    invariant
                        i <= inner.len(),
                        copy.len() == i,
                        forall|k: int| 0 <= k < i ==> copy@[k]@ == inner@[k]@,
                        *self == Token::Array(*inner),
                    decreases inner.len() - i,
                {
                    assert(decreases_to!(self->Array_0@ => self->Array_0@[i as int]));
                    copy.push(inner[i].clone());
                    i += 1;
                }
                assert(Token::Array(copy)@->Array_0 =~= self@->Array_0);
                Token::Array(copy)
            },
        }
    }
}

/// The result of an evaluation.
#[derive(Debug, PartialEq, Eq)]
pub enum Output {
    Single(Json),
    Multiple(Vec<Output>),
}

/// The mathematical content of an [`Output`].
pub enum OutputView {
    Single(JsonView),
    Multiple(Seq<OutputView>),
}

impl Output {
    /// The mathematical content of the result; `o@` stands for `o.model()`.
    pub open spec fn model(self) -> OutputView
        decreases self,
    {
        match self {
            Output::Single(v) => OutputView::Single(v@),
            Output::Multiple(children) => OutputView::Multiple(
                Seq::new(
                    children@.len(),
                    |i: int|
                        if 0 <= i < children@.len() {
                            children@[i].model()
                        } else {
                            OutputView::Single(JsonView::Null)
                        },
                ),
            ),
        }
    }
}

impl Clone for Output {
    fn clone(&self) -> (r: Output)
        ensures
            r@ == self@,
        decreases self,
    {
        match self {
            Output::Single(value) => Output::Single(value.clone()),
            Output::Multiple(children) => {
                let mut copy: Vec<Output> = Vec::new();
                let mut i: usize = 0;
                while i < children.len()
                    invariant
                        i <= children.len(),
                        copy.len() == i,
                        forall|k: int| 0 <= k < i ==> copy@[k]@ == children@[k]@,
                        *self == Output::Multiple(*children),
                    decreases children.len() - i,
                {
                    assert(decreases_to!(self->Multiple_0@ => self->Multiple_0@[i as int]));
                    copy.push(children[i].clone());
                    i += 1;
                }
                assert(Output::Multiple(copy)@->Multiple_0 =~= self@->Multiple_0);
                Output::Multiple(copy)
            },
        }
    }
}

impl View for Output {
    type V = OutputView;

    open spec fn view(&self) -> OutputView {
        self.model()
    }
}

impl DeepView for Output {
    type V = OutputView;

    open spec fn deep_view(&self) -> OutputView {
        self.model()
    }
}

impl OutputView {
    /// Every value in the result is well formed.
    pub open spec fn well_formed(self) -> bool
        decreases self,
    {
        match self {
            OutputView::Single(v) => v.well_formed(),
            OutputView::Multiple(children) => results_well_formed(children),
        }
    }

    /// The value that an array construction puts in place of a result: a
    /// single value stays as it is, a fan-out becomes the array of its
    /// children, each taken the same way.
    pub open spec fn unwrap(self) -> JsonView
        decreases self, 1nat,
    {
        match self {
            OutputView::Single(v) => v,
            OutputView::Multiple(children) => JsonView::Array(unwrap_each(children)),
        }
    }

    /// The array that an array construction builds from a result: a single
    /// value is wrapped in an array of one element, a fan-out is unwrapped.
    pub open spec fn wrap(self) -> JsonView {
        match self {
            OutputView::Single(v) => JsonView::Array(seq![v]),
            OutputView::Multiple(_) => self.unwrap(),
        }
    }
}

/// Each of `children` unwrapped, in order.
pub open spec fn unwrap_each(children: Seq<OutputView>) -> Seq<JsonView>
    decreases children, 0nat,
{
    Seq::new(
        children.len(),
        |i: int|
            if 0 <= i < children.len() {
                children[i].unwrap()
            } else {
                JsonView::Null
            },
    )
}

/// Every value in each of `children` is well formed.
pub open spec fn results_well_formed(children: Seq<OutputView>) -> bool
    decreases children,
{
    forall|i: int| 0 <= i < children.len() ==> (#[trigger] children[i]).well_formed()
}

/// Each of `values` as a result of its own, in order.
pub open spec fn singles(values: Seq<JsonView>) -> Seq<OutputView> {
    Seq::new(values.len(), |i: int| OutputView::Single(values[i]))
}

/// What applying `tokens` to `v` gives.
pub open spec fn eval(v: JsonView, tokens: Seq<TokenView>) -> Result<OutputView, EvalFailure>
    decreases tokens, 0nat, 0nat,
{
    if tokens.len() == 0 {
        Ok(OutputView::Single(v))
    } else {
        let rest = tokens.drop_first();
        match tokens[0] {
            TokenView::Identity => eval(v, rest),
            TokenView::Key(name) => if v is Object {
                eval(or_null(v.get_key(name)), rest)
            } else {
                Err(EvalFailure::TypeMismatch(Access::Key))
            },
            TokenView::OptionalKey(name) => eval(or_null(v.get_key(name)), rest),
            TokenView::Index(n) => if v is Array {
                eval(or_null(v.get_index(n as int)), rest)
            } else {
                Err(EvalFailure::TypeMismatch(Access::Index))
            },
            TokenView::OptionalIndex(n) => eval(or_null(v.get_index(n as int)), rest),
            TokenView::IterateKey(name) => if v is Object {
                fan_out(or_null(v.get_key(name)), rest)
            } else {
                Err(EvalFailure::TypeMismatch(Access::Key))
            },
            TokenView::IterateOptionalKey(name) => fan_out(or_null(v.get_key(name)), rest),
            TokenView::IterateIndex(n) => if v is Array {
                fan_out(or_null(v.get_index(n as int)), rest)
            } else {
                Err(EvalFailure::TypeMismatch(Access::Index))
            },
            TokenView::IterateOptionalIndex(n) => fan_out(or_null(v.get_index(n as int)), rest),
            TokenView::Iterate => fan_out(v, rest),
            TokenView::Array(inner) => match eval(v, inner) {
                Ok(built) => eval(built.wrap(), rest),
                Err(e) => Err(e),
            },
        }
    }
}

/// What fanning `v` out over `tokens` gives: `tokens` applied to each member
/// of `v` in order, or the failure of the first member that fails.
pub open spec fn fan_out(v: JsonView, tokens: Seq<TokenView>) -> Result<OutputView, EvalFailure>
    decreases tokens, 2nat, 0nat,
{
    match v.members() {
        Some(members) => match eval_each(members, tokens) {
            Ok(children) => Ok(OutputView::Multiple(children)),
            Err(e) => Err(e),
        },
        None => Err(EvalFailure::NotIterable),
    }
}

/// `tokens` applied to each of `members` in order.
pub open spec fn eval_each(members: Seq<JsonView>, tokens: Seq<TokenView>) -> Result<
    Seq<OutputView>,
    EvalFailure,
>
    decreases tokens, 1nat, members.len(),
{
    if members.len() == 0 {
        Ok(Seq::empty())
    } else {
        match eval(members[0], tokens) {
            Ok(first) => match eval_each(members.drop_first(), tokens) {
                Ok(others) => Ok(seq![first] + others),
                Err(e) => Err(e),
            },
            Err(e) => Err(e),
        }
    }
}

/// Applies `tokens` to `input` from left to right.
pub fn apply_tokens(input: &Json, tokens: &[Token<'_>]) -> (r: Result<Output, EvalFailure>)
    ensures
        match eval(input@, tokens.deep_view()) {
            Ok(expected) => r matches Ok(out) && out@ == expected,
            Err(expected) => r matches Err(e) && e == expected,
        },
    decreases tokens@, 0nat,
{
    let null = Json::Null;
    let mut current: &Json = input;
    let mut i: usize = 0;
    let ghost all = tokens.deep_view();
    assert(all.skip(0) =~= all);
    while i < tokens.len()
        invariant
            i <= tokens.len(),
            all == tokens.deep_view(),
            null@ == JsonView::Null,
            eval(current@, all.skip(i as int)) == eval(input@, all),
        decreases tokens.len() - i,
    {
        let rest = vstd::slice::slice_subrange(tokens, i + 1, tokens.len());
        proof {
            assert(all.skip(i as int).drop_first() =~= all.skip(i + 1));
            assert(rest.deep_view() =~= all.skip(i + 1));
        }
        match &tokens[i] {
            Token::Identity => {},
            Token::Index(n) => {
                if !current.is_array() {
                    return Err(EvalFailure::TypeMismatch(Access::Index));
                }
                current = element_or(current, *n, &null);
            },
            Token::OptionalIndex(n) => {
                current = element_or(current, *n, &null);
            },
            Token::Key(name) => {
                if !current.is_object() {
                    return Err(EvalFailure::TypeMismatch(Access::Key));
                }
                current = field_or(current, name, &null);
            },
            Token::OptionalKey(name) => {
                current = field_or(current, name, &null);
            },
            Token::IterateIndex(n) => {
                if !current.is_array() {
                    return Err(EvalFailure::TypeMismatch(Access::Index));
                }
                return iterate(element_or(current, *n, &null), rest);
            },
            Token::IterateOptionalIndex(n) => {
                return iterate(element_or(current, *n, &null), rest);
            },
            Token::IterateKey(name) => {
                if !current.is_object() {
                    return Err(EvalFailure::TypeMismatch(Access::Key));
                }
                return iterate(field_or(current, name, &null), rest);
            },
            Token::IterateOptionalKey(name) => {
                return iterate(field_or(current, name, &null), rest);
            },
            Token::Iterate => {
                return iterate(current, rest);
            },
            Token::Array(inner) => {
                proof {
                    assert(tokens@[i as int]@ == TokenView::Array(inner.deep_view())) by {
                        assert(tokens@[i as int]@->Array_0 =~= inner.deep_view());
                    }
                }
                let inner_tokens = inner.as_slice();
                match apply_tokens(current, inner_tokens) {
                    Ok(built) => {
                        let wrapped = wrap_output(built);
                        return apply_tokens(&wrapped, rest);
                    },
                    Err(e) => {
                        return Err(e);
                    },
                }
            },
        }
        i += 1;
    }
    Ok(Output::Single(current.clone()))
}

/// The element of `v` at position `n`, or `null` where there is none.
fn element_or<'v>(v: &'v Json, n: usize, null: &'v Json) -> (r: &'v Json)
    requires
        null@ == JsonView::Null,
    ensures
        r@ == or_null(v@.get_index(n as int)),
{
    match v.get_index(n) {
        Some(found) => found,
        None => null,
    }
}

/// The field `name` of `v`, or `null` where there is none.
fn field_or<'v>(v: &'v Json, name: &str, null: &'v Json) -> (r: &'v Json)
    requires
        null@ == JsonView::Null,
    ensures
        r@ == or_null(v@.get_key(name@)),
{
    match v.get_key(name) {
        Some(found) => found,
        None => null,
    }
}

/// Fans `input` out over `next_tokens`: applies them to each member of
/// `input` in order and collects the results.
pub fn iterate(input: &Json, next_tokens: &[Token<'_>]) -> (r: Result<Output, EvalFailure>)
    ensures
        match fan_out(input@, next_tokens.deep_view()) {
            Ok(expected) => r matches Ok(out) && out@ == expected,
            Err(expected) => r matches Err(e) && e == expected,
        },
    decreases next_tokens@, 1nat,
{
    let members = match input.members() {
        Some(members) => members,
        None => {
            return Err(EvalFailure::NotIterable);
        },
    };
    let ghost values = members.deep_view();
    let ghost tokens = next_tokens.deep_view();
    let mut children: Vec<Output> = Vec::new();
    let mut k: usize = 0;
    proof {
        assert(values.skip(0) =~= values);
    }
    while k < members.len()
        invariant
            k <= members.len(),
            values == members.deep_view(),
            tokens == next_tokens.deep_view(),
            input@.members() == Some(values),
            children.len() == k,
            match eval_each(values.skip(k as int), tokens) {
                Ok(others) => eval_each(values, tokens) == Ok::<Seq<OutputView>, EvalFailure>(
                    children.deep_view() + others,
                ),
                Err(e) => eval_each(values, tokens) == Err::<Seq<OutputView>, EvalFailure>(e),
            },
        decreases members.len() - k,
    {
        proof {
            assert(values.skip(k as int).drop_first() =~= values.skip(k + 1));
        }
        let ghost before = children.deep_view();
        match apply_tokens(members[k], next_tokens) {
            Ok(child) => {
                children.push(child);
                proof {
                    if let Ok(others) = eval_each(values.skip(k + 1), tokens) {
                        assert(before + (seq![child@] + others) =~= children.deep_view()
                            + others);
                    }
                }
            },
            Err(e) => {
                return Err(e);
            },
        }
        k += 1;
    }
    proof {
        assert(Output::Multiple(children)@->Multiple_0 =~= children.deep_view());
    }
    Ok(Output::Multiple(children))
}

/// Turns a result into the value that stands for it inside an array.
pub fn unwrap_output(output: Output) -> (r: Json)
    ensures
        r@ == output@.unwrap(),
    decreases output,
{
    match output {
        Output::Single(value) => value,
        Output::Multiple(children) => {
            assert(output@->Multiple_0 =~= children.deep_view());
            let items = unwrap_all(children);
            assert(Json::Array(items)@->Array_0 =~= items.deep_view());
            Json::Array(items)
        },
    }
}

/// Unwraps each of `children`, in order.
fn unwrap_all(children: Vec<Output>) -> (r: Vec<Json>)
    ensures
        r.deep_view() == unwrap_each(children.deep_view()),
    decreases children,
{
    let ghost all = children@;
    let mut values: Vec<Json> = Vec::new();
    for child in it: children
        invariant
            it.seq() == all,
            all == children@,
            values.len() == it.index(),
            forall|j: int| 0 <= j < it.index() ==> values@[j]@ == all[j]@.unwrap(),
    {
        values.push(unwrap_output(child));
    }
    values
}

/// Turns a result into the array that an array construction builds from it.
fn wrap_output(output: Output) -> (r: Json)
    ensures
        r@ == output@.wrap(),
{
    match output {
        Output::Single(value) => {
            let mut items: Vec<Json> = Vec::new();
            items.push(value);
            assert(Json::Array(items)@->Array_0 =~= seq![value@]);
            Json::Array(items)
        },
        Output::Multiple(children) => {
            assert(output@->Multiple_0 =~= children.deep_view());
            let items = unwrap_all(children);
            assert(Json::Array(items)@->Array_0 =~= items.deep_view());
            Json::Array(items)
        },
    }
}

impl OutputView {
    /// The single values of the result, as they are met from first to last.
    pub open spec fn leaves(self) -> Seq<JsonView>
        decreases self, 1nat,
    {
        match self {
            OutputView::Single(v) => seq![v],
            OutputView::Multiple(children) => leaves_of(children),
        }
    }
}

/// The single values of `children`, child after child.
pub open spec fn leaves_of(children: Seq<OutputView>) -> Seq<JsonView>
    decreases children, 0nat,
{
    if children.len() == 0 {
        Seq::empty()
    } else {
        leaves_of(children.drop_last()) + children.last().leaves()
    }
}

impl Output {
    /// The single values of the result, as they are met from first to last.
    pub fn leaves(&self) -> (r: Vec<&Json>)
        ensures
            r.deep_view() == self@.leaves(),
    {
        let mut found: Vec<&Json> = Vec::new();
        self.add_leaves(&mut found);
        found
    }

    /// Adds the single values of the result to `found`.
    fn add_leaves<'o>(&'o self, found: &mut Vec<&'o Json>)
        ensures
            final(found).deep_view() == old(found).deep_view() + self@.leaves(),
        decreases self,
    {
        match self {
            Output::Single(value) => {
                found.push(value);
            },
            Output::Multiple(children) => {
                let ghost before = found.deep_view();
                let ghost all = self@->Multiple_0;
                let mut i: usize = 0;
                while i < children.len()
                    invariant
                        i <= children.len(),
                        *self == Output::Multiple(*children),
                        all == self@->Multiple_0,
                        all.len() == children.len(),
                        found.deep_view() == before + leaves_of(all.take(i as int)),
                    decreases children.len() - i,
                {
                    proof {
                        assert(all.take(i + 1).drop_last() =~= all.take(i as int));
                    }
                    children[i].add_leaves(found);
                    i += 1;
                }
                assert(all.take(children.len() as int) =~= all);
            },
        }
    }
}

/// The texts of `lines`, with one newline between each two.
pub open spec fn join_lines(lines: Seq<Seq<char>>) -> Seq<char>
    decreases lines.len(),
{
    if lines.len() == 0 {
        Seq::empty()
    } else if lines.len() == 1 {
        lines[0]
    } else {
        join_lines(lines.drop_last()) + seq!['\n'] + lines.last()
    }
}

/// The text that a result is shown as: a single value as the codec prints
/// it, a fan-out as the texts of its children, one per line. `None` where
/// the codec cannot print one of the values.
pub open spec fn render(output: OutputView) -> Option<Seq<char>>
    decreases output, 1nat,
{
    match output {
        OutputView::Single(v) => pretty_text(v),
        OutputView::Multiple(children) => if can_render_each(children) {
            Some(join_lines(render_each(children)))
        } else {
            None
        },
    }
}

/// Whether each of `children` can be shown.
pub open spec fn can_render_each(children: Seq<OutputView>) -> bool
    decreases children, 0nat,
{
    forall|i: int| 0 <= i < children.len() ==> render(#[trigger] children[i]) is Some
}

/// The texts of `children`, in order, where each of them can be shown.
pub open spec fn render_each(children: Seq<OutputView>) -> Seq<Seq<char>>
    decreases children, 0nat,
{
    Seq::new(
        children.len(),
        |i: int|
            if 0 <= i < children.len() {
                render(children[i])->0
            } else {
                Seq::empty()
            },
    )
}

/// Joins `lines` with one newline between each two.
fn join(lines: &Vec<String>) -> (r: String)
    ensures
        r@ == join_lines(lines.deep_view()),
{
    let mut text = String::new();
    let ghost all = lines.deep_view();
    let mut i: usize = 0;
    while i < lines.len()
        invariant
            i <= lines.len(),
            all == lines.deep_view(),
            text@ == join_lines(all.take(i as int)),
        decreases lines.len() - i,
    {
        proof {
            assert(all.take(i + 1).drop_last() =~= all.take(i as int));
            reveal_strlit("\n");
        }
        if i > 0 {
            text.append("\n");
        }
        text.append(lines[i].as_str());
        i += 1;
    }
    proof {
        assert(all.take(lines.len() as int) =~= all);
    }
    text
}

/// Shows a result as text.
pub fn token_output_to_string(output: Output) -> (r: Result<String, FilterError>)
    ensures
        match render(output@) {
            Some(expected) => r matches Ok(text) && text@ == expected,
            None => r matches Err(FilterError::Unprintable(_)),
        },
    decreases output,
{
    match output {
        Output::Single(value) => match to_string_pretty(&value) {
            Ok(text) => Ok(text),
            Err(e) => Err(FilterError::Unprintable(error_text(&e))),
        },
        Output::Multiple(children) => {
            let ghost all = children@;
            let mut lines: Vec<String> = Vec::new();
            for child in it: children
                invariant
                    it.seq() == all,
                    all == children@,
                    output == Output::Multiple(children),
                    output@ is Multiple,
                    output@->Multiple_0.len() == all.len(),
                    forall|j: int| 0 <= j < all.len() ==> output@->Multiple_0[j] == all[j]@,
                    lines.len() == it.index(),
                    forall|j: int|
                        0 <= j < it.index() ==> render(all[j]@) == Some(lines@[j]@),
            {
                match token_output_to_string(child) {
                    Ok(line) => {
                        lines.push(line);
                    },
                    Err(e) => {
                        assert(render(output@->Multiple_0[it.index()]) is None);
                        return Err(e);
                    },
                }
            }
            proof {
                assert forall|i: int| 0 <= i < output@->Multiple_0.len() implies render(
                    #[trigger] output@->Multiple_0[i],
                ) is Some by {
                }
                assert(lines.deep_view() =~= render_each(output@->Multiple_0));
            }
            Ok(join(&lines))
        },
    }
}

} // verus!
