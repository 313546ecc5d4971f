//! The mid-level IR: a flat, SSA-shaped body of expressions with explicit
//! responsibility tracking, and the self-contained optimizations on it.
//!
//! The central invariant is single static assignment: every ID is defined
//! exactly once, and every referenced ID is a parameter of an enclosing
//! function or defined earlier in the same or an enclosing body
//! (`body_is_ssa`).

use crate::builtins::BuiltinFunction;
use crate::hir;
use crate::module::Module;
use crate::strings::{dec_digits, push_char, u64_to_digits};
use vstd::prelude::*;

verus! {

broadcast use vstd::seq_lib::lemma_seq_contains_after_push;

/// The identity of one MIR expression.
#[derive(Debug, PartialEq, Eq, Clone, Copy, Hash, PartialOrd, Ord, Structural)]
pub struct Id(pub usize);

impl Id {
    pub fn from_usize(id: usize) -> (r: Self)
        ensures
            r.0 == id,
    {
        Self(id)
    }

    pub fn to_usize(&self) -> (r: usize)
        ensures
            r == self.0,
    {
        self.0
    }

    /// The ID the way dumps and traces write it: a dollar sign and the
    /// decimal number.
    pub fn to_short_debug_string(&self) -> (r: String)
        ensures
            r@ == seq!['$'] + dec_digits(self.0 as nat),
    {
        let mut out = String::new();
        push_char(&mut out, '$');
        let digits = u64_to_digits(self.0 as u64);
        let tail = crate::strings::chars_to_string(digits.as_slice());
        out.append(tail.as_str());
        proof {
            assert(Seq::<char>::empty().push('$') =~= seq!['$']);
        }
        out
    }
}

#[derive(Debug, PartialEq, Eq)]
pub enum Expression {
    Int(i64),
    Text(String),
    Tag { symbol: String, value: Option<Id> },
    Builtin(BuiltinFunction),
    List(Vec<Id>),
    Struct(Vec<(Id, Id)>),
    Reference(Id),
    /// A HIR ID that can be used to refer to code in the HIR.
    HirId(hir::Id),
    /// All functions take a responsible HIR ID as an extra parameter, used
    /// to determine who's at fault if some `needs` is not fulfilled.
    Function {
        original_hirs: Vec<hir::Id>,
        parameters: Vec<Id>,
        responsible_parameter: Id,
        body: Body,
    },
    /// Never contained in an actual body: when dealing with expressions,
    /// it's easier to not special-case IDs referring to parameters.
    Parameter,
    Call { function: Id, arguments: Vec<Id>, responsible: Id },
    UseModule { current_module: Module, relative_path: Id, responsible: Id },
    /// The code will panic: created for the generated `needs` function, or
    /// when it is statically known that an expression always panics.
    Panic { reason: Id, responsible: Id },
    /// Stores multiple inner expressions in a single one, for convenience
    /// when optimizing; multiple flattening expands it again.
    Multiple(Body),
    TraceCallStarts { hir_call: Id, function: Id, arguments: Vec<Id>, responsible: Id },
    TraceCallEnds { return_value: Id },
    TraceExpressionEvaluated { hir_expression: Id, value: Id },
    TraceFoundFuzzableFunction { hir_definition: Id, function: Id },
}

/// An ordered sequence of ID-named expressions; the last one's value is
/// the body's result.
#[derive(Debug, PartialEq, Eq)]
pub struct Body {
    pub expressions: Vec<(Id, Expression)>,
}

#[derive(Debug, PartialEq, Eq)]
pub struct Mir {
    /// The next ID no expression uses yet.
    pub id_generator: usize,
    pub body: Body,
}

/// Whether evaluating the expression can have an effect a fiber observes:
/// panics, channel operations, handle calls, or trace events. Pure
/// expressions may be removed when nothing references them.
pub open spec fn is_pure(e: Expression) -> bool {
    match e {
        Expression::Int(_) => true,
        Expression::Text(_) => true,
        Expression::Tag { .. } => true,
        Expression::Builtin(_) => true,
        Expression::List(_) => true,
        Expression::Struct(_) => true,
        Expression::Reference(_) => true,
        Expression::HirId(_) => true,
        Expression::Function { .. } => true,
        Expression::Parameter => true,
        Expression::Call { .. } => false,
        Expression::UseModule { .. } => false,
        Expression::Panic { .. } => false,
        Expression::Multiple(_) => false,
        Expression::TraceCallStarts { .. } => false,
        Expression::TraceCallEnds { .. } => false,
        Expression::TraceExpressionEvaluated { .. } => false,
        Expression::TraceFoundFuzzableFunction { .. } => false,
    }
}

impl Expression {
    pub fn is_pure(&self) -> (r: bool)
        ensures
            r == is_pure(*self),
    {
        match self {
            Expression::Int(_) => true,
            Expression::Text(_) => true,
            Expression::Tag { .. } => true,
            Expression::Builtin(_) => true,
            Expression::List(_) => true,
            Expression::Struct(_) => true,
            Expression::Reference(_) => true,
            Expression::HirId(_) => true,
            Expression::Function { .. } => true,
            Expression::Parameter => true,
            _ => false,
        }
    }
}

/// Every ID the expression mentions: its direct operands and, for nested
/// functions and multiples, everything their bodies define and mention.
pub open spec fn expr_mentions(e: Expression) -> Set<Id>
    decreases e,
{
    match e {
        Expression::Int(_) => Set::empty(),
        Expression::Text(_) => Set::empty(),
        Expression::Tag { symbol, value } => match value {
            Some(id) => Set::empty().insert(id),
            None => Set::empty(),
        },
        Expression::Builtin(_) => Set::empty(),
        Expression::List(items) => ids_in(items@),
        Expression::Struct(fields) => pair_ids_in(fields@),
        Expression::Reference(id) => Set::empty().insert(id),
        Expression::HirId(_) => Set::empty(),
        Expression::Function { original_hirs, parameters, responsible_parameter, body } => ids_in(
            parameters@,
        ).insert(responsible_parameter).union(exprs_mentions(body.expressions@)),
        Expression::Parameter => Set::empty(),
        Expression::Call { function, arguments, responsible } => ids_in(arguments@).insert(
            function,
        ).insert(responsible),
        Expression::UseModule { current_module, relative_path, responsible } => Set::empty().insert(
            relative_path,
        ).insert(responsible),
        Expression::Panic { reason, responsible } => Set::empty().insert(reason).insert(
            responsible,
        ),
        Expression::Multiple(body) => exprs_mentions(body.expressions@),
        Expression::TraceCallStarts { hir_call, function, arguments, responsible } => ids_in(
            arguments@,
        ).insert(hir_call).insert(function).insert(responsible),
        Expression::TraceCallEnds { return_value } => Set::empty().insert(return_value),
        Expression::TraceExpressionEvaluated { hir_expression, value } => Set::empty().insert(
            hir_expression,
        ).insert(value),
        Expression::TraceFoundFuzzableFunction { hir_definition, function } => Set::empty().insert(
            hir_definition,
        ).insert(function),
    }
}

pub open spec fn ids_in(s: Seq<Id>) -> Set<Id> {
    Set::new(|x: Id| s.contains(x))
}

pub open spec fn pair_ids_in(s: Seq<(Id, Id)>) -> Set<Id> {
    Set::new(|x: Id| exists|i: int| 0 <= i < s.len() && (#[trigger] s[i]).0 == x || 0 <= i < s.len() && s[i].1 == x)
}

/// The IDs defined or mentioned anywhere in a sequence of expressions.
pub open spec fn exprs_mentions(s: Seq<(Id, Expression)>) -> Set<Id>
    decreases s,
{
    if s.len() == 0 {
        Set::empty()
    } else {
        exprs_mentions(s.drop_first()).insert(s[0].0).union(expr_mentions(s[0].1))
    }
}

/// Single static assignment, checked structurally: all defined IDs are
/// distinct and fresh, and every reference points at a visible ID — a
/// parameter of an enclosing function or an earlier definition of the same
/// or an enclosing body.
pub open spec fn body_is_ssa(b: Body, visible: Set<Id>) -> bool
    decreases b,
{
    exprs_ssa(b.expressions@, visible)
}

/// The SSA conditions on a sequence of definitions.
pub open spec fn exprs_ssa(s: Seq<(Id, Expression)>, visible: Set<Id>) -> bool
    decreases s,
{
    &&& (forall|j: int, k: int| 0 <= j < k < s.len() ==> (#[trigger] s[j]).0 != (#[trigger] s[k]).0)
    &&& (forall|k: int| 0 <= k < s.len() ==> !visible.contains((#[trigger] s[k]).0))
    &&& (forall|k: int|
        0 <= k < s.len() ==> expr_is_ssa(
            (#[trigger] s[k]).1,
            visible.union(ids_defined_before(s, k)),
        ))
}

pub open spec fn ids_defined_before(s: Seq<(Id, Expression)>, k: int) -> Set<Id> {
    Set::new(|x: Id| exists|j: int| 0 <= j < k && (#[trigger] s[j]).0 == x)
}

pub open spec fn expr_is_ssa(e: Expression, visible: Set<Id>) -> bool
    decreases e,
{
    match e {
        Expression::Int(_) => true,
        Expression::Text(_) => true,
        Expression::Tag { symbol, value } => match value {
            Some(id) => visible.contains(id),
            None => true,
        },
        Expression::Builtin(_) => true,
        Expression::List(items) => forall|i: int|
            0 <= i < items@.len() ==> visible.contains(#[trigger] items@[i]),
        Expression::Struct(fields) => forall|i: int|
            0 <= i < fields@.len() ==> visible.contains((#[trigger] fields@[i]).0)
                && visible.contains(fields@[i].1),
        Expression::Reference(id) => visible.contains(id),
        Expression::HirId(_) => true,
        Expression::Function { original_hirs, parameters, responsible_parameter, body } => {
            &&& (forall|i: int, j: int|
                0 <= i < j < parameters@.len() ==> #[trigger] parameters@[i]
                    != #[trigger] parameters@[j])
            &&& (forall|i: int|
                0 <= i < parameters@.len() ==> !visible.contains(#[trigger] parameters@[i])
                    && parameters@[i] != responsible_parameter)
            &&& !visible.contains(responsible_parameter)
            &&& body_is_ssa(body, visible.union(ids_in(parameters@)).insert(responsible_parameter))
        },
        Expression::Parameter => true,
        Expression::Call { function, arguments, responsible } => visible.contains(function)
            && visible.contains(responsible) && (forall|i: int|
            0 <= i < arguments@.len() ==> visible.contains(#[trigger] arguments@[i])),
        Expression::UseModule { current_module, relative_path, responsible } => visible.contains(
            relative_path,
        ) && visible.contains(responsible),
        Expression::Panic { reason, responsible } => visible.contains(reason) && visible.contains(
            responsible,
        ),
        Expression::Multiple(body) => body_is_ssa(body, visible),
        Expression::TraceCallStarts { hir_call, function, arguments, responsible } => {
            visible.contains(hir_call) && visible.contains(function) && visible.contains(
                responsible,
            ) && (forall|i: int|
                0 <= i < arguments@.len() ==> visible.contains(#[trigger] arguments@[i]))
        },
        Expression::TraceCallEnds { return_value } => visible.contains(return_value),
        Expression::TraceExpressionEvaluated { hir_expression, value } => visible.contains(
            hir_expression,
        ) && visible.contains(value),
        Expression::TraceFoundFuzzableFunction { hir_definition, function } => visible.contains(
            hir_definition,
        ) && visible.contains(function),
    }
}

impl Body {
    pub fn new() -> (r: Self)
        ensures
            r.expressions@.len() == 0,
    {
        Body { expressions: Vec::new() }
    }

    pub fn push(&mut self, id: Id, expression: Expression)
        ensures
            final(self).expressions@ == old(self).expressions@.push((id, expression)),
    {
        self.expressions.push((id, expression));
    }
}


/// The expressions whose IDs the keep set holds, in their original order.
pub open spec fn filter_kept(s: Seq<(Id, Expression)>, keep: Seq<Id>) -> Seq<(Id, Expression)>
    decreases s,
{
    if s.len() == 0 {
        Seq::empty()
    } else {
        (if keep.contains(s[0].0) {
            seq![s[0]]
        } else {
            Seq::empty()
        }) + filter_kept(s.drop_first(), keep)
    }
}

proof fn lemma_filter_kept_push(s: Seq<(Id, Expression)>, x: (Id, Expression), keep: Seq<Id>)
    ensures
        filter_kept(s.push(x), keep) == filter_kept(s, keep) + (if keep.contains(x.0) {
            seq![x]
        } else {
            Seq::<(Id, Expression)>::empty()
        }),
    decreases s.len(),
{
    let tail: Seq<(Id, Expression)> = if keep.contains(x.0) {
        seq![x]
    } else {
        Seq::empty()
    };
    if s.len() == 0 {
        assert(s.push(x).drop_first() =~= s);
        assert(s.push(x)[0] == x);
        assert(filter_kept(s.push(x), keep) =~= filter_kept(s, keep) + tail);
    } else {
        lemma_filter_kept_push(s.drop_first(), x, keep);
        assert(s.push(x).drop_first() =~= s.drop_first().push(x));
        assert(s.push(x)[0] == s[0]);
        assert(filter_kept(s.push(x), keep) =~= filter_kept(s, keep) + tail);
    }
}

/// Every element the filter keeps is an element of the input.
pub proof fn lemma_filter_kept_element(s: Seq<(Id, Expression)>, keep: Seq<Id>, i: int)
    requires
        0 <= i < filter_kept(s, keep).len(),
    ensures
        s.contains(filter_kept(s, keep)[i]),
        keep.contains(filter_kept(s, keep)[i].0),
    decreases s.len(),
{
    if s.len() > 0 {
        if keep.contains(s[0].0) {
            if i == 0 {
                assert(filter_kept(s, keep)[0] == s[0]);
            } else {
                lemma_filter_kept_element(s.drop_first(), keep, i - 1);
                assert(s.drop_first().contains(filter_kept(s.drop_first(), keep)[i - 1]));
                let e = filter_kept(s.drop_first(), keep)[i - 1];
                let j = choose|j: int| 0 <= j < s.drop_first().len() && s.drop_first()[j] == e;
                assert(s[j + 1] == e);
            }
        } else {
            lemma_filter_kept_element(s.drop_first(), keep, i);
            let e = filter_kept(s.drop_first(), keep)[i];
            let j = choose|j: int| 0 <= j < s.drop_first().len() && s.drop_first()[j] == e;
            assert(s[j + 1] == e);
        }
    }
}

impl Expression {
    /// Appends every ID the expression mentions.
    #[verifier::loop_isolation(false)]
    pub fn collect_mentions(&self, out: &mut Vec<Id>)
        ensures
            forall|x: Id| old(out)@.contains(x) ==> final(out)@.contains(x),
            forall|x: Id| expr_mentions(*self).contains(x) ==> final(out)@.contains(x),
            forall|x: Id|
                final(out)@.contains(x) ==> old(out)@.contains(x) || expr_mentions(*self).contains(
                    x,
                ),
        decreases *self,
    {
        match self {
            Expression::Int(_) => {},
            Expression::Text(_) => {},
            Expression::Builtin(_) => {},
            Expression::HirId(_) => {},
            Expression::Parameter => {},
            Expression::Tag { symbol: _, value } => {
                match value {
                    Some(id) => out.push(*id),
                    None => {},
                }
            },
            Expression::List(items) => {
                push_all(items, out);
            },
            Expression::Struct(fields) => {
                let mut i: usize = 0;
                while i < fields.len()
                    invariant
                        i <= fields@.len(),
                        forall|x: Id| old(out)@.contains(x) ==> out@.contains(x),
                        forall|j: int|
                            0 <= j < i ==> out@.contains((#[trigger] fields@[j]).0)
                                && out@.contains(fields@[j].1),
                        forall|x: Id|
                            out@.contains(x) ==> old(out)@.contains(x) || pair_ids_in(
                                fields@,
                            ).contains(x),
                    decreases fields@.len() - i,
                {
                    let (k, v) = fields[i];
                    out.push(k);
                    out.push(v);
                    i = i + 1;
                }
            },
            Expression::Reference(id) => out.push(*id),
            Expression::Function { original_hirs: _, parameters, responsible_parameter, body } => {
                push_all(parameters, out);
                out.push(*responsible_parameter);
                collect_body_mentions(body, out);
            },
            Expression::Call { function, arguments, responsible } => {
                push_all(arguments, out);
                out.push(*function);
                out.push(*responsible);
            },
            Expression::UseModule { current_module: _, relative_path, responsible } => {
                out.push(*relative_path);
                out.push(*responsible);
            },
            Expression::Panic { reason, responsible } => {
                out.push(*reason);
                out.push(*responsible);
            },
            Expression::Multiple(body) => {
                collect_body_mentions(body, out);
            },
            Expression::TraceCallStarts { hir_call, function, arguments, responsible } => {
                push_all(arguments, out);
                out.push(*hir_call);
                out.push(*function);
                out.push(*responsible);
            },
            Expression::TraceCallEnds { return_value } => out.push(*return_value),
            Expression::TraceExpressionEvaluated { hir_expression, value } => {
                out.push(*hir_expression);
                out.push(*value);
            },
            Expression::TraceFoundFuzzableFunction { hir_definition, function } => {
                out.push(*hir_definition);
                out.push(*function);
            },
        }
    }
}

#[verifier::loop_isolation(false)]
fn push_all(ids: &Vec<Id>, out: &mut Vec<Id>)
    ensures
        forall|x: Id| old(out)@.contains(x) ==> final(out)@.contains(x),
        forall|x: Id| ids_in(ids@).contains(x) ==> final(out)@.contains(x),
        forall|x: Id| final(out)@.contains(x) ==> old(out)@.contains(x) || ids_in(ids@).contains(x),
{
    let mut i: usize = 0;
    while i < ids.len()
        invariant
            i <= ids@.len(),
            forall|x: Id| old(out)@.contains(x) ==> out@.contains(x),
            forall|j: int| 0 <= j < i ==> out@.contains(#[trigger] ids@[j]),
            forall|x: Id| out@.contains(x) ==> old(out)@.contains(x) || ids_in(ids@).contains(x),
        decreases ids@.len() - i,
    {
        out.push(ids[i]);
        i = i + 1;
    }
}

#[verifier::loop_isolation(false)]
fn collect_body_mentions(body: &Body, out: &mut Vec<Id>)
    ensures
        forall|x: Id| old(out)@.contains(x) ==> final(out)@.contains(x),
        forall|x: Id| exprs_mentions(body.expressions@).contains(x) ==> final(out)@.contains(x),
        forall|x: Id|
            final(out)@.contains(x) ==> old(out)@.contains(x) || exprs_mentions(
                body.expressions@,
            ).contains(x),
    decreases *body,
{
    let ghost s = body.expressions@;
    let mut i: usize = 0;
    while i < body.expressions.len()
        invariant
            i <= s.len(),
            s == body.expressions@,
            forall|x: Id| old(out)@.contains(x) ==> out@.contains(x),
            forall|x: Id|
                exprs_mentions(s.subrange(0, i as int)).contains(x) ==> out@.contains(x),
            forall|x: Id|
                out@.contains(x) ==> old(out)@.contains(x) || exprs_mentions(s).contains(x),
        decreases s.len() - i,
    {
        let id = body.expressions[i].0;
        out.push(id);
        let e = &body.expressions[i].1;
        e.collect_mentions(out);
        proof {
            lemma_exprs_mentions_front(s, i as int);
            lemma_exprs_mentions_prefix_extend(s, i as int);
        }
        i = i + 1;
    }
    proof {
        assert(s.subrange(0, s.len() as int) =~= s);
    }
}

/// A defined ID and the mentions of its expression are mentions of every
/// sequence containing it.
proof fn lemma_exprs_mentions_front(s: Seq<(Id, Expression)>, k: int)
    requires
        0 <= k < s.len(),
    ensures
        exprs_mentions(s).contains(s[k].0),
        forall|x: Id| expr_mentions(s[k].1).contains(x) ==> exprs_mentions(s).contains(x),
    decreases s.len(),
{
    if k == 0 {
    } else {
        lemma_exprs_mentions_front(s.drop_first(), k - 1);
        assert(s.drop_first()[k - 1] == s[k]);
    }
}

/// Extending a prefix by one element extends its mentions by exactly that
/// element's ID and mentions.
proof fn lemma_exprs_mentions_prefix_extend(s: Seq<(Id, Expression)>, k: int)
    requires
        0 <= k < s.len(),
    ensures
        forall|x: Id|
            exprs_mentions(s.subrange(0, k + 1)).contains(x) <==> exprs_mentions(
                s.subrange(0, k),
            ).contains(x) || s[k].0 == x || expr_mentions(s[k].1).contains(x),
{
    lemma_exprs_mentions_push(s.subrange(0, k), s[k]);
    assert(s.subrange(0, k + 1) =~= s.subrange(0, k).push(s[k]));
}

proof fn lemma_exprs_mentions_push(s: Seq<(Id, Expression)>, x: (Id, Expression))
    ensures
        forall|y: Id|
            exprs_mentions(s.push(x)).contains(y) <==> exprs_mentions(s).contains(y) || x.0 == y
                || expr_mentions(x.1).contains(y),
    decreases s.len(),
{
    if s.len() == 0 {
        assert(s.push(x).drop_first() =~= s);
        assert(s.push(x)[0] == x);
        assert(exprs_mentions(s.push(x)) == exprs_mentions(s).insert(x.0).union(
            expr_mentions(x.1),
        ));
    } else {
        lemma_exprs_mentions_push(s.drop_first(), x);
        assert(s.push(x).drop_first() =~= s.drop_first().push(x));
        assert(s.push(x)[0] == s[0]);
        assert(exprs_mentions(s.push(x)) == exprs_mentions(s.drop_first().push(x)).insert(
            s[0].0,
        ).union(expr_mentions(s[0].1)));
        assert(exprs_mentions(s) == exprs_mentions(s.drop_first()).insert(s[0].0).union(
            expr_mentions(s[0].1),
        ));
    }
}

/// Whether any expression in the sequence references an ID only defined at
/// or after its own position. In an SSA body this never happens.
pub open spec fn refs_point_backwards(s: Seq<(Id, Expression)>) -> bool {
    forall|j: int, k: int|
        0 <= j <= k < s.len() ==> !expr_mentions((#[trigger] s[j]).1).contains((#[trigger] s[k]).0)
}

pub open spec fn unique_ids(s: Seq<(Id, Expression)>) -> bool {
    forall|j: int, k: int| 0 <= j < k < s.len() ==> (#[trigger] s[j]).0 != (#[trigger] s[k]).0
}

/// Nothing left to shake: every pure expression other than the body's
/// result is mentioned by another expression. Tree shaking leaves such a
/// body unchanged.
pub open spec fn tree_shaken(s: Seq<(Id, Expression)>) -> bool {
    forall|m: int|
        0 <= m < s.len() && is_pure((#[trigger] s[m]).1) && s[m].0 != s.last().0 ==> exists|j: int|
            0 <= j < s.len() && expr_mentions((#[trigger] s[j]).1).contains(s[m].0)
}

/// Filtering with a set that holds every ID changes nothing.
proof fn lemma_filter_kept_all(s: Seq<(Id, Expression)>, keep: Seq<Id>)
    requires
        forall|k: int| 0 <= k < s.len() ==> keep.contains((#[trigger] s[k]).0),
    ensures
        filter_kept(s, keep) == s,
    decreases s.len(),
{
    if s.len() > 0 {
        assert forall|k: int| 0 <= k < s.drop_first().len() implies keep.contains(
            (#[trigger] s.drop_first()[k]).0,
        ) by {
            assert(s.drop_first()[k] == s[k + 1]);
        }
        lemma_filter_kept_all(s.drop_first(), keep);
        assert(filter_kept(s, keep) =~= s);
    }
}

fn id_vec_contains(v: &Vec<Id>, id: Id) -> (r: bool)
    ensures
        r == v@.contains(id),
{
    let mut i: usize = 0;
    while i < v.len()
        invariant
            i <= v@.len(),
            forall|j: int| 0 <= j < i ==> v@[j] != id,
        decreases v@.len() - i,
    {
        if v[i] == id {
            return true;
        }
        i = i + 1;
    }
    false
}

impl Body {
    /// Removes pure expressions that nothing transitively needs: the body's
    /// return value and all impure expressions are kept, along with
    /// everything an expression that stays mentions. `keep` collects the
    /// IDs that stay; what it holds on entry is kept alive too.
    #[verifier::loop_isolation(false)]
    pub fn tree_shake(&mut self, keep: &mut Vec<Id>)
        requires
            old(self).expressions@.len() > 0,
            unique_ids(old(self).expressions@),
            refs_point_backwards(old(self).expressions@),
            forall|k: int|
                0 <= k < old(self).expressions@.len() ==> !old(keep)@.contains(
                    (#[trigger] old(self).expressions@[k]).0,
                ),
        ensures
            final(self).expressions@ == filter_kept(old(self).expressions@, final(keep)@),
            forall|x: Id| old(keep)@.contains(x) ==> final(keep)@.contains(x),
            final(keep)@.contains(old(self).expressions@.last().0),
            forall|k: int|
                0 <= k < old(self).expressions@.len() && !is_pure(
                    (#[trigger] old(self).expressions@[k]).1,
                ) ==> final(keep)@.contains(old(self).expressions@[k].0),
            forall|k: int, x: Id|
                0 <= k < old(self).expressions@.len() && final(keep)@.contains(
                    (#[trigger] old(self).expressions@[k]).0,
                ) && #[trigger] expr_mentions(old(self).expressions@[k].1).contains(x)
                    ==> final(keep)@.contains(x),
            // Minimality: a pure expression other than the return value
            // only stays because a kept expression mentions it.
            forall|m: int|
                0 <= m < old(self).expressions@.len() && final(keep)@.contains(
                    (#[trigger] old(self).expressions@[m]).0,
                ) && is_pure(old(self).expressions@[m].1) && old(self).expressions@[m].0 != old(self).expressions@.last().0 ==> exists|j: int|
                    0 <= j < old(self).expressions@.len() && final(keep)@.contains(
                        (#[trigger] old(self).expressions@[j]).0,
                    ) && expr_mentions(old(self).expressions@[j].1).contains(
                        old(self).expressions@[m].0,
                    ),
            // On an already shaken body everything is kept.
            tree_shaken(old(self).expressions@) ==> forall|k: int|
                0 <= k < old(self).expressions@.len() ==> final(keep)@.contains(
                    (#[trigger] old(self).expressions@[k]).0,
                ),
    {
        let ghost s = self.expressions@;
        let n = self.expressions.len();
        let return_value_id = self.expressions[n - 1].0;
        keep.push(return_value_id);

        let mut i: usize = n;
        while i > 0
            invariant
                i <= n,
                n == s.len(),
                s == self.expressions@,
                keep@.contains(s.last().0),
                forall|x: Id| old(keep)@.contains(x) ==> keep@.contains(x),
                forall|k: int|
                    i <= k < n && !is_pure((#[trigger] s[k]).1) ==> keep@.contains(s[k].0),
                forall|k: int, x: Id|
                    i <= k < n && keep@.contains((#[trigger] s[k]).0) && expr_mentions(
                        s[k].1,
                    ).contains(x) ==> #[trigger] keep@.contains(x),
                forall|x: Id|
                    keep@.contains(x) ==> old(keep)@.contains(x) || x == s.last().0 || exists|k: int|
                        i <= k < n && ((#[trigger] s[k]).0 == x || expr_mentions(s[k].1).contains(
                            x,
                        )),
                forall|m: int|
                    0 <= m < n && keep@.contains((#[trigger] s[m]).0) && is_pure(s[m].1) && s[m].0
                        != s.last().0 ==> exists|j: int|
                        0 <= j < n && keep@.contains((#[trigger] s[j]).0) && expr_mentions(
                            s[j].1,
                        ).contains(s[m].0),
                tree_shaken(s) ==> forall|k2: int|
                    i <= k2 < n ==> keep@.contains((#[trigger] s[k2]).0),
            decreases i,
        {
            i = i - 1;
            let id = self.expressions[i].0;
            let keep_it = !self.expressions[i].1.is_pure() || id_vec_contains(keep, id);
            if keep_it {
                let ghost keep_before = keep@;
                keep.push(id);
                let e = &self.expressions[i].1;
                e.collect_mentions(keep);
                proof {
                    // Nothing the newly added IDs could break: they are the
                    // expression's own ID and its mentions, and mentions
                    // never include IDs defined at this position or later.
                    assert forall|k: int, x: Id|
                        i <= k < n && keep@.contains((#[trigger] s[k]).0) && expr_mentions(
                            s[k].1,
                        ).contains(x) implies #[trigger] keep@.contains(x) by {
                        if keep_before.contains(s[k].0) {
                        } else {
                            // The ID entered the set this round, so it is
                            // the current expression's ID or one of its
                            // mentions; the latter cannot name a definition
                            // at or after the current position.
                            assert(s[k].0 == id || expr_mentions(s[i as int].1).contains(s[k].0));
                            assert(s[k].0 == id);
                            assert(k == i);
                        }
                    }
                    // Every pure expression in the keep set has a kept
                    // expression mentioning it: either it had one before,
                    // or it entered as a mention of the expression kept
                    // this round.
                    assert forall|m: int|
                        0 <= m < n && keep@.contains((#[trigger] s[m]).0) && is_pure(s[m].1)
                            && s[m].0 != s.last().0 implies exists|j: int|
                            0 <= j < n && keep@.contains((#[trigger] s[j]).0) && expr_mentions(
                                s[j].1,
                            ).contains(s[m].0) by {
                        if keep_before.contains(s[m].0) {
                            let j0 = choose|j: int|
                                0 <= j < n && keep_before.contains((#[trigger] s[j]).0)
                                    && expr_mentions(s[j].1).contains(s[m].0);
                            assert(keep@.contains(s[j0].0));
                        } else {
                            // Newly added this round: the current
                            // expression's own ID is not pure-tracked here,
                            // so the new member is one of its mentions.
                            assert(s[m].0 == id || expr_mentions(s[i as int].1).contains(s[m].0));
                            if s[m].0 == id {
                                assert(m == i);
                                // A pure expression is only kept when its ID
                                // was already in the set, which this branch
                                // rules out.
                                assert(false);
                            } else {
                                assert(keep@.contains(s[i as int].0));
                            }
                        }
                    }
                }
            }
            proof {
                if tree_shaken(s) {
                    assert forall|k2: int| i <= k2 < n implies keep@.contains(
                        (#[trigger] s[k2]).0,
                    ) by {
                        if k2 == i {
                            let idv = s[i as int].0;
                            if !is_pure(s[i as int].1) {
                                assert(keep@.contains(idv));
                            } else if idv == s.last().0 {
                                assert(keep@.contains(idv));
                            } else {
                                let j = choose|j: int|
                                    0 <= j < n && expr_mentions((#[trigger] s[j]).1).contains(idv);
                                assert(!(j <= i));
                                assert(keep@.contains(s[j].0));
                                assert(keep@.contains(idv));
                            }
                        }
                    }
                }
            }
        }

        let ghost kept = keep@;
        let mut shaken: Vec<(Id, Expression)> = Vec::new();
        let ghost mut k: int = 0;
        while self.expressions.len() > 0
            invariant
                0 <= k <= n,
                n == s.len(),
                self.expressions@ =~= s.subrange(k, n as int),
                keep@ == kept,
                shaken@ =~= filter_kept(s.subrange(0, k), kept),
            decreases self.expressions@.len(),
        {
            let first = self.expressions.remove(0);
            proof {
                assert(first == s[k]);
            }
            if id_vec_contains(keep, first.0) {
                shaken.push(first);
            }
            proof {
                lemma_filter_kept_push(s.subrange(0, k), s[k], kept);
                assert(s.subrange(0, k + 1) =~= s.subrange(0, k).push(s[k]));
                if kept.contains(s[k].0) {
                    assert(shaken@ =~= filter_kept(s.subrange(0, k + 1), kept));
                } else {
                    assert(shaken@ =~= filter_kept(s.subrange(0, k + 1), kept));
                }
                k = k + 1;
                assert(self.expressions@ =~= s.subrange(k, n as int));
            }
        }
        proof {
            assert(s.subrange(0, n as int) =~= s);
        }
        self.expressions = shaken;
    }
}


/// An expression whose ID the keep set holds survives the filter.
proof fn lemma_filter_kept_keeps(s: Seq<(Id, Expression)>, keep: Seq<Id>, k: int)
    requires
        0 <= k < s.len(),
        keep.contains(s[k].0),
    ensures
        filter_kept(s, keep).contains(s[k]),
    decreases s.len(),
{
    if k == 0 {
        assert(filter_kept(s, keep)[0] == s[0]);
    } else {
        lemma_filter_kept_keeps(s.drop_first(), keep, k - 1);
        assert(s.drop_first()[k - 1] == s[k]);
        let f = filter_kept(s.drop_first(), keep);
        let j = choose|j: int| 0 <= j < f.len() && f[j] == s[k];
        if keep.contains(s[0].0) {
            assert(filter_kept(s, keep)[j + 1] == s[k]);
        } else {
            assert(filter_kept(s, keep)[j] == s[k]);
        }
    }
}

proof fn lemma_filter_kept_len(s: Seq<(Id, Expression)>, keep: Seq<Id>)
    ensures
        filter_kept(s, keep).len() <= s.len(),
    decreases s.len(),
{
    if s.len() > 0 {
        lemma_filter_kept_len(s.drop_first(), keep);
    }
}

/// Filtering preserves the uniqueness of IDs and that references only
/// point backwards: the kept expressions stay in their original order.
proof fn lemma_filter_kept_preserves(s: Seq<(Id, Expression)>, keep: Seq<Id>)
    requires
        unique_ids(s),
        refs_point_backwards(s),
    ensures
        unique_ids(filter_kept(s, keep)),
        refs_point_backwards(filter_kept(s, keep)),
    decreases s.len(),
{
    if s.len() == 0 {
    } else {
        let rest = s.drop_first();
        assert forall|j: int, k: int| 0 <= j < k < rest.len() implies (#[trigger] rest[j]).0 != (
        #[trigger] rest[k]).0 by {
            assert(rest[j] == s[j + 1] && rest[k] == s[k + 1]);
        }
        assert forall|j: int, k: int| 0 <= j <= k < rest.len() implies !expr_mentions(
            (#[trigger] rest[j]).1,
        ).contains((#[trigger] rest[k]).0) by {
            assert(rest[j] == s[j + 1] && rest[k] == s[k + 1]);
        }
        lemma_filter_kept_preserves(rest, keep);
        let fr = filter_kept(rest, keep);
        let f = filter_kept(s, keep);
        if keep.contains(s[0].0) {
            assert(f =~= seq![s[0]] + fr);
            assert forall|j: int, k: int| 0 <= j < k < f.len() implies (#[trigger] f[j]).0 != (
            #[trigger] f[k]).0 by {
                if j == 0 {
                    lemma_filter_kept_element(rest, keep, k - 1);
                    let e = fr[k - 1];
                    let m = choose|m: int| 0 <= m < rest.len() && rest[m] == e;
                    assert(s[m + 1] == e);
                    assert(f[k] == e);
                } else {
                    assert(f[j] == fr[j - 1] && f[k] == fr[k - 1]);
                }
            }
            assert forall|j: int, k: int| 0 <= j <= k < f.len() implies !expr_mentions(
                (#[trigger] f[j]).1,
            ).contains((#[trigger] f[k]).0) by {
                if j == 0 {
                    if k == 0 {
                        assert(f[0] == s[0]);
                    } else {
                        lemma_filter_kept_element(rest, keep, k - 1);
                        let e = fr[k - 1];
                        let m = choose|m: int| 0 <= m < rest.len() && rest[m] == e;
                        assert(s[m + 1] == e);
                        assert(f[k] == e);
                        assert(f[0] == s[0]);
                    }
                } else {
                    assert(f[j] == fr[j - 1] && f[k] == fr[k - 1]);
                }
            }
        } else {
            assert(f =~= fr);
        }
    }
}

impl Mir {
    /// Removes pure expressions of the top-level body that nothing
    /// transitively needs.
    pub fn tree_shake(&mut self)
        requires
            old(self).body.expressions@.len() > 0,
            unique_ids(old(self).body.expressions@),
            refs_point_backwards(old(self).body.expressions@),
        ensures
            final(self).id_generator == old(self).id_generator,
            final(self).body.expressions@.len() > 0,
            unique_ids(final(self).body.expressions@),
            refs_point_backwards(final(self).body.expressions@),
            final(self).body.expressions@.len() <= old(self).body.expressions@.len(),
            final(self).body.expressions@.last() == old(self).body.expressions@.last(),
            body_is_ssa(old(self).body, Set::empty()) ==> body_is_ssa(
                final(self).body,
                Set::empty(),
            ),
            exists|kept: Seq<Id>|
                {
                    &&& #[trigger] filter_kept(old(self).body.expressions@, kept)
                        == final(self).body.expressions@
                    &&& kept.contains(old(self).body.expressions@.last().0)
                    &&& (forall|k: int|
                        0 <= k < old(self).body.expressions@.len() && !is_pure(
                            (#[trigger] old(self).body.expressions@[k]).1,
                        ) ==> kept.contains(old(self).body.expressions@[k].0))
                    &&& (forall|k: int, x: Id|
                        0 <= k < old(self).body.expressions@.len() && kept.contains(
                            (#[trigger] old(self).body.expressions@[k]).0,
                        ) && #[trigger] expr_mentions(old(self).body.expressions@[k].1).contains(x)
                            ==> kept.contains(x))
                    &&& (forall|m: int|
                        0 <= m < old(self).body.expressions@.len() && kept.contains(
                            (#[trigger] old(self).body.expressions@[m]).0,
                        ) && is_pure(old(self).body.expressions@[m].1) && old(self).body.expressions@[m].0 != old(self).body.expressions@.last().0
                            ==> exists|j: int|
                            0 <= j < old(self).body.expressions@.len() && kept.contains(
                                (#[trigger] old(self).body.expressions@[j]).0,
                            ) && expr_mentions(old(self).body.expressions@[j].1).contains(
                                old(self).body.expressions@[m].0,
                            ))
                },
            // Tree shaking reaches a fixed point in one pass: its output is
            // shaken, and a shaken body comes out unchanged.
            tree_shaken(final(self).body.expressions@),
            tree_shaken(old(self).body.expressions@) ==> final(self).body.expressions@ == old(
                self,
            ).body.expressions@,
    {
        let ghost s = self.body.expressions@;
        let mut keep: Vec<Id> = Vec::new();
        self.body.tree_shake(&mut keep);
        proof {
            lemma_filter_kept_preserves(s, keep@);
            lemma_filter_kept_len(s, keep@);
            lemma_filter_kept_keeps(s, keep@, s.len() - 1);
            let f = filter_kept(s, keep@);
            assert(f.contains(s.last()));
            assert(f.len() > 0);
            // The last original expression is kept, everything after it is
            // filtered away, so it is also the last kept expression.
            lemma_filter_kept_last(s, keep@);
            if body_is_ssa(old(self).body, Set::empty()) {
                lemma_tree_shake_preserves_ssa(s, keep@, Set::empty());
            }
            if tree_shaken(s) {
                lemma_filter_kept_all(s, keep@);
            }
            let kept = keep@;
            assert forall|m2: int|
                0 <= m2 < f.len() && is_pure((#[trigger] f[m2]).1) && f[m2].0 != f.last().0
                implies exists|j2: int|
                0 <= j2 < f.len() && expr_mentions((#[trigger] f[j2]).1).contains(f[m2].0) by {
                lemma_filter_kept_element(s, kept, m2);
                let m = choose|m: int| 0 <= m < s.len() && s[m] == f[m2];
                assert(f.last() == s.last());
                assert(kept.contains(s[m].0) && is_pure(s[m].1) && s[m].0 != s.last().0);
                let j = choose|j: int|
                    0 <= j < s.len() && kept.contains((#[trigger] s[j]).0) && expr_mentions(
                        s[j].1,
                    ).contains(s[m].0);
                lemma_filter_kept_keeps(s, kept, j);
                let j2 = choose|j2: int| 0 <= j2 < f.len() && f[j2] == s[j];
                assert(expr_mentions(f[j2].1).contains(f[m2].0));
            }
        }
    }

    /// Performs optimizations that improve both performance and code size
    /// and that work without looking at other modules, until they reach a
    /// fixed point.
    #[verifier::loop_isolation(false)]
    pub fn optimize_obvious_self_contained(&mut self)
        requires
            old(self).body.expressions@.len() > 0,
            unique_ids(old(self).body.expressions@),
            refs_point_backwards(old(self).body.expressions@),
        ensures
            final(self).body.expressions@.len() > 0,
            unique_ids(final(self).body.expressions@),
            refs_point_backwards(final(self).body.expressions@),
            final(self).body.expressions@.len() <= old(self).body.expressions@.len(),
            final(self).body.expressions@.last() == old(self).body.expressions@.last(),
            body_is_ssa(old(self).body, Set::empty()) ==> body_is_ssa(
                final(self).body,
                Set::empty(),
            ),
            // The result is a fixed point: another run changes nothing.
            tree_shaken(final(self).body.expressions@),
            tree_shaken(old(self).body.expressions@) ==> final(self).body.expressions@ == old(
                self,
            ).body.expressions@,
    {
        let mut done = false;
        while !done
            invariant
                self.body.expressions@.len() > 0,
                unique_ids(self.body.expressions@),
                refs_point_backwards(self.body.expressions@),
                self.body.expressions@.len() <= old(self).body.expressions@.len(),
                self.body.expressions@.last() == old(self).body.expressions@.last(),
                body_is_ssa(old(self).body, Set::empty()) ==> body_is_ssa(
                    self.body,
                    Set::empty(),
                ),
                done ==> tree_shaken(self.body.expressions@),
                tree_shaken(old(self).body.expressions@) ==> self.body.expressions@ == old(
                    self,
                ).body.expressions@,
            decreases self.body.expressions@.len(), (if done { 0int } else { 1int }),
        {
            let before = self.body.expressions.len();
            self.checked_optimization(Optimization::TreeShaking);
            if self.body.expressions.len() == before {
                done = true;
            }
        }
    }

    /// Runs one optimization pass; each pass keeps the body's shape valid,
    /// which its contract states.
    pub fn checked_optimization(&mut self, optimization: Optimization)
        requires
            old(self).body.expressions@.len() > 0,
            unique_ids(old(self).body.expressions@),
            refs_point_backwards(old(self).body.expressions@),
        ensures
            final(self).body.expressions@.len() > 0,
            unique_ids(final(self).body.expressions@),
            refs_point_backwards(final(self).body.expressions@),
            final(self).body.expressions@.len() <= old(self).body.expressions@.len(),
            final(self).body.expressions@.last() == old(self).body.expressions@.last(),
            body_is_ssa(old(self).body, Set::empty()) ==> body_is_ssa(
                final(self).body,
                Set::empty(),
            ),
            tree_shaken(final(self).body.expressions@),
            tree_shaken(old(self).body.expressions@) ==> final(self).body.expressions@ == old(
                self,
            ).body.expressions@,
    {
        match optimization {
            Optimization::TreeShaking => self.tree_shake(),
        }
    }
}

/// The self-contained optimization passes.
#[derive(Debug, PartialEq, Eq, Clone, Copy, Structural)]
pub enum Optimization {
    TreeShaking,
}

/// When the keep set holds the last expression's ID, the filtered body
/// ends in exactly that expression.
proof fn lemma_filter_kept_last(s: Seq<(Id, Expression)>, keep: Seq<Id>)
    requires
        s.len() > 0,
        unique_ids(s),
        keep.contains(s.last().0),
    ensures
        filter_kept(s, keep).len() > 0,
        filter_kept(s, keep).last() == s.last(),
    decreases s.len(),
{
    if s.len() == 1 {
        assert(filter_kept(s, keep) =~= seq![s[0]]);
    } else {
        let rest = s.drop_first();
        assert forall|j: int, k: int| 0 <= j < k < rest.len() implies (#[trigger] rest[j]).0 != (
        #[trigger] rest[k]).0 by {
            assert(rest[j] == s[j + 1] && rest[k] == s[k + 1]);
        }
        assert(rest.last() == s.last());
        lemma_filter_kept_last(rest, keep);
        let fr = filter_kept(rest, keep);
        if keep.contains(s[0].0) {
            assert(filter_kept(s, keep) =~= seq![s[0]] + fr);
            assert(filter_kept(s, keep).last() == fr.last());
        } else {
            assert(filter_kept(s, keep) =~= fr);
        }
    }
}


impl Mir {
    /// The MIR that panics with the given reason, blaming the module as a
    /// whole. Module folding synthesizes it when the modules' imports form
    /// a cycle, instead of looping forever. The result is in single static
    /// assignment form.
    pub fn build_panic(module: Module, reason: String) -> (r: Mir)
        ensures
            body_is_ssa(r.body, Set::empty()),
            r.body.expressions@.len() == 3,
            r.body.expressions@[0].1 == Expression::Text(reason),
            (r.body.expressions@[1].1 matches Expression::HirId(id) && id.module == module
                && id.keys@.len() == 0),
            r.body.expressions@[2].1 == (Expression::Panic {
                reason: r.body.expressions@[0].0,
                responsible: r.body.expressions@[1].0,
            }),
            unique_ids(r.body.expressions@),
            refs_point_backwards(r.body.expressions@),
    {
        let reason_id = Id(0);
        let responsible_id = Id(1);
        let panic_id = Id(2);
        let mut body = Body::new();
        body.push(reason_id, Expression::Text(reason));
        body.push(responsible_id, Expression::HirId(hir::Id::new(module, Vec::new())));
        body.push(panic_id, Expression::Panic { reason: reason_id, responsible: responsible_id });
        let mir = Mir { id_generator: 3, body };
        proof {
            let s = mir.body.expressions@;
            assert(s.len() == 3);
            assert(s[0].0 == Id(0) && s[1].0 == Id(1) && s[2].0 == Id(2));
            assert forall|k: int| 0 <= k < s.len() implies expr_is_ssa(
                (#[trigger] s[k]).1,
                Set::empty().union(ids_defined_before(s, k)),
            ) by {
                if k == 2 {
                    let visible = Set::empty().union(ids_defined_before(s, 2));
                    assert(visible.contains(Id(0)));
                    assert(visible.contains(Id(1)));
                }
            }
            assert forall|j: int, k: int| 0 <= j <= k < s.len() implies !expr_mentions(
                (#[trigger] s[j]).1,
            ).contains((#[trigger] s[k]).0) by {
                if j == 2 {
                    assert(expr_mentions(s[2].1) =~= Set::empty().insert(Id(0)).insert(Id(1)));
                }
            }
        }
        mir
    }

    /// Recovers from an import cycle found while computing a module's
    /// optimized MIR: instead of spinning or aborting, the module compiles
    /// to a MIR that panics with a reason naming the cycle, and the cycle
    /// is recorded as a compiler error.
    pub fn recover_from_cycle(module: Module, cycle: Vec<String>) -> (r: (
        Mir,
        Vec<crate::error::CompilerError>,
    ))
        ensures
            body_is_ssa(r.0.body, Set::empty()),
            unique_ids(r.0.body.expressions@),
            refs_point_backwards(r.0.body.expressions@),
            r.0.body.expressions@.len() == 3,
            (r.0.body.expressions@[0].1 matches Expression::Text(t) && t@
                == crate::error::payload_message(
                crate::error::CompilerErrorPayload::Mir(
                    crate::error::MirError::ModuleHasCycle { cycle },
                ),
            )),
            (r.0.body.expressions@[1].1 matches Expression::HirId(id) && id.module == module
                && id.keys@.len() == 0),
            r.0.body.expressions@[2].1 == (Expression::Panic {
                reason: r.0.body.expressions@[0].0,
                responsible: r.0.body.expressions@[1].0,
            }),
            r.1@.len() == 1,
            crate::vm::module_like(r.1@[0].module, module),
            r.1@[0].payload == crate::error::CompilerErrorPayload::Mir(
                crate::error::MirError::ModuleHasCycle { cycle },
            ),
    {
        let payload = crate::error::CompilerErrorPayload::Mir(
            crate::error::MirError::ModuleHasCycle { cycle },
        );
        let reason = payload.to_message();
        let module_copy = module.duplicate();
        let error = crate::error::CompilerError::for_whole_module(module_copy, payload);
        let mir = Mir::build_panic(module, reason);
        let mut errors: Vec<crate::error::CompilerError> = Vec::new();
        errors.push(error);
        (mir, errors)
    }
}


/// Shrinking the visible set does not break an expression, as long as
/// every visible ID the expression mentions stays visible.
proof fn lemma_expr_ssa_mono(e: Expression, v1: Set<Id>, v2: Set<Id>)
    requires
        expr_is_ssa(e, v1),
        v2.subset_of(v1),
        forall|x: Id| expr_mentions(e).contains(x) && v1.contains(x) ==> v2.contains(x),
    ensures
        expr_is_ssa(e, v2),
    decreases e,
{
    match e {
        Expression::Tag { symbol, value } => {
            match value {
                Some(id) => {
                    assert(expr_mentions(e).contains(id));
                },
                None => {},
            }
        },
        Expression::List(items) => {
            assert forall|i: int| 0 <= i < items@.len() implies v2.contains(
                #[trigger] items@[i],
            ) by {
                assert(items@.contains(items@[i]));
                assert(expr_mentions(e).contains(items@[i]));
            }
        },
        Expression::Struct(fields) => {
            assert forall|i: int| 0 <= i < fields@.len() implies v2.contains(
                (#[trigger] fields@[i]).0,
            ) && v2.contains(fields@[i].1) by {
                assert(pair_ids_in(fields@).contains(fields@[i].0));
                assert(pair_ids_in(fields@).contains(fields@[i].1));
            }
        },
        Expression::Reference(id) => {
            assert(expr_mentions(e).contains(id));
        },
        Expression::Function { original_hirs, parameters, responsible_parameter, body } => {
            let p1 = v1.union(ids_in(parameters@)).insert(responsible_parameter);
            let p2 = v2.union(ids_in(parameters@)).insert(responsible_parameter);
            assert forall|x: Id|
                exprs_mentions(body.expressions@).contains(x) && p1.contains(x) implies p2.contains(
                x,
            ) by {
                if v1.contains(x) {
                    assert(expr_mentions(e).contains(x));
                }
            }
            lemma_exprs_ssa_mono(body.expressions@, p1, p2);
        },
        Expression::Call { function, arguments, responsible } => {
            assert(expr_mentions(e).contains(function));
            assert(expr_mentions(e).contains(responsible));
            assert forall|i: int| 0 <= i < arguments@.len() implies v2.contains(
                #[trigger] arguments@[i],
            ) by {
                assert(ids_in(arguments@).contains(arguments@[i]));
            }
        },
        Expression::UseModule { current_module, relative_path, responsible } => {
            assert(expr_mentions(e).contains(relative_path));
            assert(expr_mentions(e).contains(responsible));
        },
        Expression::Panic { reason, responsible } => {
            assert(expr_mentions(e).contains(reason));
            assert(expr_mentions(e).contains(responsible));
        },
        Expression::Multiple(body) => {
            lemma_exprs_ssa_mono(body.expressions@, v1, v2);
        },
        Expression::TraceCallStarts { hir_call, function, arguments, responsible } => {
            assert(expr_mentions(e).contains(hir_call));
            assert(expr_mentions(e).contains(function));
            assert(expr_mentions(e).contains(responsible));
            assert forall|i: int| 0 <= i < arguments@.len() implies v2.contains(
                #[trigger] arguments@[i],
            ) by {
                assert(ids_in(arguments@).contains(arguments@[i]));
            }
        },
        Expression::TraceCallEnds { return_value } => {
            assert(expr_mentions(e).contains(return_value));
        },
        Expression::TraceExpressionEvaluated { hir_expression, value } => {
            assert(expr_mentions(e).contains(hir_expression));
            assert(expr_mentions(e).contains(value));
        },
        Expression::TraceFoundFuzzableFunction { hir_definition, function } => {
            assert(expr_mentions(e).contains(hir_definition));
            assert(expr_mentions(e).contains(function));
        },
        _ => {},
    }
}

proof fn lemma_exprs_ssa_mono(s: Seq<(Id, Expression)>, v1: Set<Id>, v2: Set<Id>)
    requires
        exprs_ssa(s, v1),
        v2.subset_of(v1),
        forall|x: Id| exprs_mentions(s).contains(x) && v1.contains(x) ==> v2.contains(x),
    ensures
        exprs_ssa(s, v2),
    decreases s,
{
    assert forall|k: int| 0 <= k < s.len() implies expr_is_ssa(
        (#[trigger] s[k]).1,
        v2.union(ids_defined_before(s, k)),
    ) by {
        let w1 = v1.union(ids_defined_before(s, k));
        let w2 = v2.union(ids_defined_before(s, k));
        assert(w2.subset_of(w1));
        assert forall|x: Id| expr_mentions(s[k].1).contains(x) && w1.contains(x) implies
            w2.contains(x) by {
            if v1.contains(x) && !ids_defined_before(s, k).contains(x) {
                lemma_exprs_mentions_front(s, k);
            }
        }
        lemma_expr_ssa_mono(s[k].1, w1, w2);
    }
}

proof fn lemma_filter_kept_unique(s: Seq<(Id, Expression)>, keep: Seq<Id>)
    requires
        forall|j: int, k: int| 0 <= j < k < s.len() ==> (#[trigger] s[j]).0 != (#[trigger] s[k]).0,
    ensures
        forall|j: int, k: int|
            0 <= j < k < filter_kept(s, keep).len() ==> (#[trigger] filter_kept(s, keep)[j]).0 != (
            #[trigger] filter_kept(s, keep)[k]).0,
    decreases s.len(),
{
    if s.len() > 0 {
        let rest = s.drop_first();
        assert forall|j: int, k: int| 0 <= j < k < rest.len() implies (#[trigger] rest[j]).0 != (
        #[trigger] rest[k]).0 by {
            assert(rest[j] == s[j + 1] && rest[k] == s[k + 1]);
        }
        lemma_filter_kept_unique(rest, keep);
        let fr = filter_kept(rest, keep);
        let f = filter_kept(s, keep);
        if keep.contains(s[0].0) {
            assert(f =~= seq![s[0]] + fr);
            assert forall|j: int, k: int| 0 <= j < k < f.len() implies (#[trigger] f[j]).0 != (
            #[trigger] f[k]).0 by {
                if j == 0 {
                    lemma_filter_kept_element(rest, keep, k - 1);
                    let e = fr[k - 1];
                    let m = choose|m: int| 0 <= m < rest.len() && rest[m] == e;
                    assert(s[m + 1] == e);
                    assert(f[k] == e);
                } else {
                    assert(f[j] == fr[j - 1] && f[k] == fr[k - 1]);
                }
            }
        } else {
            assert(f =~= fr);
        }
    }
}

/// Tree shaking preserves single static assignment: filtering a body by a
/// keep set that is closed under mentions keeps every reference of a kept
/// expression pointing at a visible definition.
pub proof fn lemma_tree_shake_preserves_ssa(
    s: Seq<(Id, Expression)>,
    kept: Seq<Id>,
    visible: Set<Id>,
)
    requires
        exprs_ssa(s, visible),
        forall|k: int, x: Id|
            0 <= k < s.len() && kept.contains((#[trigger] s[k]).0)
                && #[trigger] expr_mentions(s[k].1).contains(x) ==> kept.contains(x),
    ensures
        exprs_ssa(filter_kept(s, kept), visible),
    decreases s.len(),
{
    if s.len() == 0 {
    } else {
        let h = s[0];
        let rest = s.drop_first();
        let v_rest = visible.insert(h.0);
        // The tail satisfies the SSA conditions once the head's ID counts
        // as visible.
        assert forall|j: int, k: int| 0 <= j < k < rest.len() implies (#[trigger] rest[j]).0 != (
        #[trigger] rest[k]).0 by {
            assert(rest[j] == s[j + 1] && rest[k] == s[k + 1]);
        }
        assert forall|k: int| 0 <= k < rest.len() implies !v_rest.contains(
            (#[trigger] rest[k]).0,
        ) by {
            assert(rest[k] == s[k + 1]);
        }
        assert forall|k: int| 0 <= k < rest.len() implies expr_is_ssa(
            (#[trigger] rest[k]).1,
            v_rest.union(ids_defined_before(rest, k)),
        ) by {
            assert(rest[k] == s[k + 1]);
            assert(expr_is_ssa(s[k + 1].1, visible.union(ids_defined_before(s, k + 1))));
            assert(v_rest.union(ids_defined_before(rest, k)) =~= visible.union(
                ids_defined_before(s, k + 1),
            )) by {
                assert forall|x: Id| ids_defined_before(s, k + 1).contains(x) && x != h.0 implies
                    ids_defined_before(rest, k).contains(x) by {
                    let j = choose|j: int| 0 <= j < k + 1 && (#[trigger] s[j]).0 == x;
                    assert(j != 0);
                    assert(rest[j - 1] == s[j]);
                }
                assert forall|x: Id| ids_defined_before(rest, k).contains(x) implies
                    ids_defined_before(s, k + 1).contains(x) by {
                    let j = choose|j: int| 0 <= j < k && (#[trigger] rest[j]).0 == x;
                    assert(s[j + 1] == rest[j]);
                }
                assert(ids_defined_before(s, k + 1).contains(h.0));
            }
        }
        assert forall|k: int, x: Id|
            0 <= k < rest.len() && kept.contains((#[trigger] rest[k]).0)
                && #[trigger] expr_mentions(rest[k].1).contains(x) implies kept.contains(x) by {
            assert(rest[k] == s[k + 1]);
        }
        lemma_tree_shake_preserves_ssa(rest, kept, v_rest);
        let fr = filter_kept(rest, kept);
        let f = filter_kept(s, kept);
        if keep_contains_head(s, kept) {
            assert(f =~= seq![h] + fr);
            lemma_filter_kept_unique(s, kept);
            assert forall|k: int| 0 <= k < f.len() implies !visible.contains(
                (#[trigger] f[k]).0,
            ) by {
                if k > 0 {
                    lemma_filter_kept_element(rest, kept, k - 1);
                    let e = fr[k - 1];
                    let m = choose|m: int| 0 <= m < rest.len() && rest[m] == e;
                    assert(s[m + 1] == e);
                    assert(f[k] == e);
                }
            }
            assert forall|k: int| 0 <= k < f.len() implies expr_is_ssa(
                (#[trigger] f[k]).1,
                visible.union(ids_defined_before(f, k)),
            ) by {
                if k == 0 {
                    assert(f[0] == h);
                    assert(expr_is_ssa(h.1, visible.union(ids_defined_before(s, 0))));
                    assert(visible.union(ids_defined_before(s, 0)) =~= visible);
                    assert(visible.union(ids_defined_before(f, 0)) =~= visible);
                } else {
                    assert(f[k] == fr[k - 1]);
                    assert(expr_is_ssa(fr[k - 1].1, v_rest.union(ids_defined_before(fr, k - 1))));
                    assert(v_rest.union(ids_defined_before(fr, k - 1)) =~= visible.union(
                        ids_defined_before(f, k),
                    )) by {
                        assert forall|x: Id| ids_defined_before(f, k).contains(x) && x != h.0
                            implies ids_defined_before(fr, k - 1).contains(x) by {
                            let j = choose|j: int| 0 <= j < k && (#[trigger] f[j]).0 == x;
                            assert(j != 0);
                            assert(fr[j - 1] == f[j]);
                        }
                        assert forall|x: Id| ids_defined_before(fr, k - 1).contains(x) implies
                            ids_defined_before(f, k).contains(x) by {
                            let j = choose|j: int| 0 <= j < k - 1 && (#[trigger] fr[j]).0 == x;
                            assert(f[j + 1] == fr[j]);
                        }
                        assert(ids_defined_before(f, k).contains(h.0)) by {
                            assert(f[0].0 == h.0);
                        }
                    }
                }
            }
        } else {
            assert(f =~= fr);
            // The head was dropped; everything kept can do without it,
            // because a kept expression's mentions are all kept and the
            // head is not.
            assert forall|k: int| 0 <= k < f.len() implies !visible.contains(
                (#[trigger] f[k]).0,
            ) && expr_is_ssa(f[k].1, visible.union(ids_defined_before(f, k))) by {
                lemma_filter_kept_element(rest, kept, k);
                let e = f[k];
                let m = choose|m: int| 0 <= m < rest.len() && rest[m] == e;
                assert(s[m + 1] == e);
                let w1 = v_rest.union(ids_defined_before(fr, k));
                let w2 = visible.union(ids_defined_before(f, k));
                assert(expr_is_ssa(fr[k].1, w1));
                assert(w2.subset_of(w1)) by {
                    assert forall|x: Id| w2.contains(x) implies w1.contains(x) by {
                        if !visible.contains(x) {
                            let j = choose|j: int| 0 <= j < k && (#[trigger] f[j]).0 == x;
                        }
                    }
                }
                assert forall|x: Id| expr_mentions(e.1).contains(x) && w1.contains(x) implies
                    w2.contains(x) by {
                    assert(kept.contains(e.0));
                    assert(kept.contains(x));
                    assert(x != h.0);
                    if !visible.contains(x) {
                        assert(ids_defined_before(fr, k).contains(x));
                        let j = choose|j: int| 0 <= j < k && (#[trigger] fr[j]).0 == x;
                        assert(f[j] == fr[j]);
                    }
                }
                lemma_expr_ssa_mono(e.1, w1, w2);
            }
            lemma_filter_kept_unique(s, kept);
        }
    }
}

/// Whether the keep set holds the first definition's ID.
spec fn keep_contains_head(s: Seq<(Id, Expression)>, keep: Seq<Id>) -> bool
    recommends
        s.len() > 0,
{
    keep.contains(s[0].0)
}

/// One mixing step of the structural hash: rotate the accumulator and
/// fold the next word in.
pub open spec fn hash_mix(h: u64, b: u64) -> u64 {
    ((h << 1) | (h >> 63)) ^ b
}

pub open spec fn hash_chars(h: u64, s: Seq<char>) -> u64
    decreases s.len(),
{
    if s.len() == 0 {
        h
    } else {
        hash_chars(hash_mix(h, (s[0] as int) as u64), s.drop_first())
    }
}

pub open spec fn hash_strings(h: u64, parts: Seq<Seq<char>>) -> u64
    decreases parts.len(),
{
    if parts.len() == 0 {
        h
    } else {
        hash_strings(hash_chars(hash_mix(h, 31), parts[0]), parts.drop_first())
    }
}

pub open spec fn hash_ids(h: u64, ids: Seq<Id>) -> u64
    decreases ids.len(),
{
    if ids.len() == 0 {
        h
    } else {
        hash_ids(hash_mix(h, ids[0].0 as u64), ids.drop_first())
    }
}

pub open spec fn hash_module(h: u64, m: Module) -> u64 {
    let with_package = match m.package {
        crate::module::Package::Managed(name) => hash_chars(hash_mix(h, 1), name@),
        crate::module::Package::User(path) => hash_strings(
            hash_mix(h, 2),
            path@.map_values(|p: String| p@),
        ),
        crate::module::Package::Anonymous(key) => hash_chars(hash_mix(h, 3), key@),
    };
    let with_kind = match m.kind {
        crate::module::ModuleKind::Code => hash_mix(with_package, 4),
        crate::module::ModuleKind::Asset => hash_mix(with_package, 5),
    };
    hash_strings(with_kind, m.path@.map_values(|p: String| p@))
}

pub open spec fn hash_hir_id(h: u64, id: hir::Id) -> u64 {
    hash_strings(hash_module(h, id.module), id.keys@.map_values(|k: String| k@))
}

/// The structural hash of an expression: two structurally equal
/// expressions hash alike, so the optimizer can detect that a pass
/// changed nothing without comparing whole bodies.
pub open spec fn spec_expression_hash(e: Expression) -> u64
    decreases e,
{
    match e {
        Expression::Int(v) => hash_mix(11, v as u64),
        Expression::Text(t) => hash_chars(12, t@),
        Expression::Tag { symbol, value } => {
            let base = hash_chars(13, symbol@);
            match value {
                Some(id) => hash_mix(base, id.0 as u64),
                None => base,
            }
        },
        Expression::Builtin(b) => hash_mix(14, crate::builtins::spec_table_index(b) as u64),
        Expression::List(items) => hash_ids(15, items@),
        Expression::Struct(fields) => hash_ids(
            hash_ids(16, fields@.map_values(|f: (Id, Id)| f.0)),
            fields@.map_values(|f: (Id, Id)| f.1),
        ),
        Expression::Reference(id) => hash_mix(17, id.0 as u64),
        Expression::HirId(id) => hash_hir_id(18, id),
        Expression::Function { original_hirs, parameters, responsible_parameter, body } => {
            let with_params = hash_mix(
                hash_ids(19, parameters@),
                responsible_parameter.0 as u64,
            );
            spec_body_hash(with_params, body.expressions@)
        },
        Expression::Parameter => 20,
        Expression::Call { function, arguments, responsible } => hash_mix(
            hash_ids(hash_mix(21, function.0 as u64), arguments@),
            responsible.0 as u64,
        ),
        Expression::UseModule { current_module, relative_path, responsible } => hash_mix(
            hash_mix(hash_module(22, current_module), relative_path.0 as u64),
            responsible.0 as u64,
        ),
        Expression::Panic { reason, responsible } => hash_mix(
            hash_mix(23, reason.0 as u64),
            responsible.0 as u64,
        ),
        Expression::Multiple(body) => spec_body_hash(24, body.expressions@),
        Expression::TraceCallStarts { hir_call, function, arguments, responsible } => hash_mix(
            hash_ids(hash_mix(hash_mix(25, hir_call.0 as u64), function.0 as u64), arguments@),
            responsible.0 as u64,
        ),
        Expression::TraceCallEnds { return_value } => hash_mix(26, return_value.0 as u64),
        Expression::TraceExpressionEvaluated { hir_expression, value } => hash_mix(
            hash_mix(27, hir_expression.0 as u64),
            value.0 as u64,
        ),
        Expression::TraceFoundFuzzableFunction { hir_definition, function } => hash_mix(
            hash_mix(28, hir_definition.0 as u64),
            function.0 as u64,
        ),
    }
}

/// The hash of a body: each ID and its expression's hash folded in order.
pub open spec fn spec_body_hash(h: u64, s: Seq<(Id, Expression)>) -> u64
    decreases s,
{
    if s.len() == 0 {
        h
    } else {
        spec_body_hash(
            hash_mix(hash_mix(h, s[0].0.0 as u64), spec_expression_hash(s[0].1)),
            s.drop_first(),
        )
    }
}

fn mix(h: u64, b: u64) -> (r: u64)
    ensures
        r == hash_mix(h, b),
{
    ((h << 1u64) | (h >> 63u64)) ^ b
}

#[verifier::loop_isolation(false)]
fn hash_str(h: u64, s: &str) -> (r: u64)
    ensures
        r == hash_chars(h, s@),
{
    let v = crate::strings::str_to_chars(s);
    let n = v.len();
    let mut acc = h;
    let mut i: usize = 0;
    proof {
        assert(v@.subrange(0, n as int) =~= v@);
    }
    while i < n
        invariant
            i <= n,
            n == v@.len(),
            v@ == s@,
            hash_chars(acc, v@.subrange(i as int, n as int)) == hash_chars(h, s@),
        decreases n - i,
    {
        proof {
            let rest = v@.subrange(i as int, n as int);
            assert(rest[0] == v@[i as int]);
            assert(rest.drop_first() =~= v@.subrange(i + 1, n as int));
        }
        acc = mix(acc, v[i] as u64);
        i = i + 1;
    }
    proof {
        assert(v@.subrange(n as int, n as int) =~= Seq::<char>::empty());
    }
    acc
}

#[verifier::loop_isolation(false)]
fn hash_id_vec(h: u64, v: &Vec<Id>) -> (r: u64)
    ensures
        r == hash_ids(h, v@),
{
    let n = v.len();
    let mut acc = h;
    let mut i: usize = 0;
    proof {
        assert(v@.subrange(0, n as int) =~= v@);
    }
    while i < n
        invariant
            i <= n,
            n == v@.len(),
            hash_ids(acc, v@.subrange(i as int, n as int)) == hash_ids(h, v@),
        decreases n - i,
    {
        proof {
            let rest = v@.subrange(i as int, n as int);
            assert(rest[0] == v@[i as int]);
            assert(rest.drop_first() =~= v@.subrange(i + 1, n as int));
        }
        acc = mix(acc, v[i].0 as u64);
        i = i + 1;
    }
    proof {
        assert(v@.subrange(n as int, n as int) =~= Seq::<Id>::empty());
    }
    acc
}

#[verifier::loop_isolation(false)]
fn hash_string_vec(h: u64, v: &Vec<String>) -> (r: u64)
    ensures
        r == hash_strings(h, v@.map_values(|p: String| p@)),
{
    let ghost parts = v@.map_values(|p: String| p@);
    let n = v.len();
    let mut acc = h;
    let mut i: usize = 0;
    proof {
        assert(parts.subrange(0, n as int) =~= parts);
    }
    while i < n
        invariant
            i <= n,
            n == v@.len(),
            parts == v@.map_values(|p: String| p@),
            hash_strings(acc, parts.subrange(i as int, n as int)) == hash_strings(h, parts),
        decreases n - i,
    {
        proof {
            let rest = parts.subrange(i as int, n as int);
            assert(rest[0] == parts[i as int]);
            assert(parts[i as int] == v@[i as int]@);
            assert(rest.drop_first() =~= parts.subrange(i + 1, n as int));
        }
        acc = hash_str(mix(acc, 31), v[i].as_str());
        i = i + 1;
    }
    proof {
        assert(parts.subrange(n as int, n as int) =~= Seq::<Seq<char>>::empty());
    }
    acc
}

fn hash_module_value(h: u64, m: &Module) -> (r: u64)
    ensures
        r == hash_module(h, *m),
{
    let with_package = match &m.package {
        crate::module::Package::Managed(name) => hash_str(mix(h, 1), name.as_str()),
        crate::module::Package::User(path) => hash_string_vec(mix(h, 2), path),
        crate::module::Package::Anonymous(key) => hash_str(mix(h, 3), key.as_str()),
    };
    let with_kind = match m.kind {
        crate::module::ModuleKind::Code => mix(with_package, 4),
        crate::module::ModuleKind::Asset => mix(with_package, 5),
    };
    hash_string_vec(with_kind, &m.path)
}

fn hash_hir_id_value(h: u64, id: &hir::Id) -> (r: u64)
    ensures
        r == hash_hir_id(h, *id),
{
    hash_string_vec(hash_module_value(h, &id.module), &id.keys)
}

/// The structural hash of an expression, for cheap change detection.
pub fn expression_hash(e: &Expression) -> (r: u64)
    ensures
        r == spec_expression_hash(*e),
    decreases *e,
{
    match e {
        Expression::Int(v) => mix(11, *v as u64),
        Expression::Text(t) => hash_str(12, t.as_str()),
        Expression::Tag { symbol, value } => {
            let base = hash_str(13, symbol.as_str());
            match value {
                Some(id) => mix(base, id.0 as u64),
                None => base,
            }
        },
        Expression::Builtin(b) => mix(14, b.table_index() as u64),
        Expression::List(items) => hash_id_vec(15, items),
        Expression::Struct(fields) => {
            let mut keys: Vec<Id> = Vec::new();
            let mut values: Vec<Id> = Vec::new();
            let mut i: usize = 0;
            while i < fields.len()
                invariant
                    i <= fields@.len(),
                    keys@ =~= fields@.subrange(0, i as int).map_values(|f: (Id, Id)| f.0),
                    values@ =~= fields@.subrange(0, i as int).map_values(|f: (Id, Id)| f.1),
                decreases fields@.len() - i,
            {
                keys.push(fields[i].0);
                values.push(fields[i].1);
                proof {
                    assert(fields@.subrange(0, i + 1) =~= fields@.subrange(0, i as int).push(
                        fields@[i as int],
                    ));
                    assert(keys@ =~= fields@.subrange(0, i + 1).map_values(
                        |f: (Id, Id)| f.0,
                    ));
                    assert(values@ =~= fields@.subrange(0, i + 1).map_values(
                        |f: (Id, Id)| f.1,
                    ));
                }
                i = i + 1;
            }
            proof {
                assert(fields@.subrange(0, fields@.len() as int) =~= fields@);
            }
            hash_id_vec(hash_id_vec(16, &keys), &values)
        },
        Expression::Reference(id) => mix(17, id.0 as u64),
        Expression::HirId(id) => hash_hir_id_value(18, id),
        Expression::Function { original_hirs, parameters, responsible_parameter, body } => {
            let with_params = mix(hash_id_vec(19, parameters), responsible_parameter.0 as u64);
            body_hash(with_params, &body.expressions)
        },
        Expression::Parameter => 20,
        Expression::Call { function, arguments, responsible } => mix(
            hash_id_vec(mix(21, function.0 as u64), arguments),
            responsible.0 as u64,
        ),
        Expression::UseModule { current_module, relative_path, responsible } => mix(
            mix(hash_module_value(22, current_module), relative_path.0 as u64),
            responsible.0 as u64,
        ),
        Expression::Panic { reason, responsible } => mix(
            mix(23, reason.0 as u64),
            responsible.0 as u64,
        ),
        Expression::Multiple(body) => body_hash(24, &body.expressions),
        Expression::TraceCallStarts { hir_call, function, arguments, responsible } => mix(
            hash_id_vec(mix(mix(25, hir_call.0 as u64), function.0 as u64), arguments),
            responsible.0 as u64,
        ),
        Expression::TraceCallEnds { return_value } => mix(26, return_value.0 as u64),
        Expression::TraceExpressionEvaluated { hir_expression, value } => mix(
            mix(27, hir_expression.0 as u64),
            value.0 as u64,
        ),
        Expression::TraceFoundFuzzableFunction { hir_definition, function } => mix(
            mix(28, hir_definition.0 as u64),
            function.0 as u64,
        ),
    }
}

#[verifier::loop_isolation(false)]
fn body_hash(h: u64, v: &Vec<(Id, Expression)>) -> (r: u64)
    ensures
        r == spec_body_hash(h, v@),
    decreases v,
{
    let n = v.len();
    let mut acc = h;
    let mut i: usize = 0;
    proof {
        assert(v@.subrange(0, n as int) =~= v@);
    }
    while i < n
        invariant
            i <= n,
            n == v@.len(),
            spec_body_hash(acc, v@.subrange(i as int, n as int)) == spec_body_hash(h, v@),
        decreases n - i,
    {
        proof {
            let rest = v@.subrange(i as int, n as int);
            assert(rest[0] == v@[i as int]);
            assert(rest.drop_first() =~= v@.subrange(i + 1, n as int));
        }
        let with_id = mix(acc, v[i].0.0 as u64);
        acc = mix(with_id, expression_hash(&v[i].1));
        i = i + 1;
    }
    proof {
        assert(v@.subrange(n as int, n as int) =~= Seq::<(Id, Expression)>::empty());
    }
    acc
}

} // verus!
