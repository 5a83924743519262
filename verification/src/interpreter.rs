//! Step interpreter: walks the statements of the current step in source
//! order, binds memory, dispatches built-in calls, accumulates output
//! messages, and yields a control-flow verdict. The execution state is an
//! explicit value, so successive invocations of the same conversation
//! resume exactly where the previous one left off.
//!
//! The semantics are stated once, by the `spec_...` functions over the
//! node models; each executable function is proved against them. A
//! statement whose evaluation draws a random choice (a `one_of` call over
//! more than one element) has no single predicted outcome; for those, the
//! built-in's own contract still bounds every outcome.

use vstd::prelude::*;
use crate::ast::{Expr, ExprModel, Ident, Literal, LiteralModel, Stmt, StmtModel, BlockStmt, expr_model, expr_models};
use crate::builtins;
use crate::builtins::{button_ok_shape, spec_exprvec};
use crate::errors::InterpError;
use crate::message::{Content, ContentModel, Message, MessageModel, MessageType};
use crate::num_text::{int_text, i64_to_string};
use crate::state_context::{ExitCondition, StateContext};

verus! {

/// The conversation-scoped memory map, modeled as the sequence of its
/// bindings in the order they were made; the latest binding of a name
/// shadows the earlier ones.
#[derive(Debug)]
pub struct Memory {
    pub pairs: Vec<(Ident, Literal)>,
}

impl View for Memory {
    type V = Seq<(Seq<char>, LiteralModel)>;

    open spec fn view(&self) -> Seq<(Seq<char>, LiteralModel)> {
        Seq::new(self.pairs@.len(), |i: int| (self.pairs@[i].0@, self.pairs@[i].1@))
    }
}

impl DeepView for Message {
    type V = MessageModel;

    open spec fn deep_view(&self) -> MessageModel {
        self@
    }
}

/// The binding a name resolves to: the latest one made under that name.
pub open spec fn spec_lookup(m: Seq<(Seq<char>, LiteralModel)>, name: Seq<char>) -> Option<
    LiteralModel,
>
    decreases m.len(),
{
    if m.len() == 0 {
        None
    } else if m.last().0 == name {
        Some(m.last().1)
    } else {
        spec_lookup(m.drop_last(), name)
    }
}

impl Memory {
    /// An empty memory: no name resolves.
    pub fn new() -> (r: Memory)
        ensures
            r@ == Seq::<(Seq<char>, LiteralModel)>::empty(),
    {
        let r = Memory { pairs: Vec::new() };
        proof {
            assert(r@ =~= Seq::<(Seq<char>, LiteralModel)>::empty());
        }
        r
    }

    /// The value bound to a name, if any.
    pub fn get(&self, name: &Ident) -> (r: Option<&Literal>)
        ensures
            (match r {
                Some(l) => spec_lookup(self@, name@) == Some(l@),
                None => spec_lookup(self@, name@) is None,
            }),
    {
        let mut i: usize = self.pairs.len();
        proof {
            assert(self@.take(i as int) =~= self@);
        }
        while i > 0
            invariant
                i <= self.pairs@.len(),
                spec_lookup(self@, name@) == spec_lookup(self@.take(i as int), name@),
        decreases i,
        {
            i = i - 1;
            if self.pairs[i].0.0 == name.0 {
                return Some(&self.pairs[i].1);
            }
            proof {
                assert(self@.take(i + 1).drop_last() =~= self@.take(i as int));
            }
        }
        None
    }

    /// Binds a value to a name; the new binding shadows any earlier one
    /// and every other name keeps its binding.
    pub fn set(&mut self, name: Ident, value: Literal)
        ensures
            final(self)@ == old(self)@.push((name@, value@)),
            forall|n: Seq<char>|
                spec_lookup(final(self)@, n) == if n == name@ {
                    Some(value@)
                } else {
                    spec_lookup(old(self)@, n)
                },
    {
        self.pairs.push((name, value));
        proof {
            assert(self@ =~= old(self)@.push((name@, value@)));
            assert forall|n: Seq<char>|
                spec_lookup(self@, n) == (if n == name@ {
                    Some(value@)
                } else {
                    spec_lookup(old(self)@, n)
                }) by {
                assert(self@.drop_last() =~= old(self)@);
            }
        }
    }
}

/// The argument list of a built-in call: the elements of an array
/// argument, or the argument itself as a single-element list.
pub open spec fn spec_args(act: ExprModel) -> Seq<ExprModel> {
    match act {
        ExprModel::Array(es) => es,
        _ => seq![act],
    }
}

/// The value an argument-position expression stands for: its literal, or
/// the memory binding of its identifier; anything deeper is null.
pub open spec fn spec_arg_value(e: ExprModel, m: Seq<(Seq<char>, LiteralModel)>) -> LiteralModel {
    match e {
        ExprModel::Lit(l) => l,
        ExprModel::Ident(n) => match spec_lookup(m, n) {
            Some(l) => l,
            None => LiteralModel::Null,
        },
        _ => LiteralModel::Null,
    }
}

/// Identifier substitution: literals stay, identifiers become their
/// bound value (null when unbound), arrays are substituted element by
/// element, and nested calls or conditionals in argument position are
/// flattened to null.
pub open spec fn spec_resolve(e: ExprModel, m: Seq<(Seq<char>, LiteralModel)>) -> ExprModel
    decreases e,
{
    match e {
        ExprModel::Lit(l) => ExprModel::Lit(l),
        ExprModel::Ident(n) => ExprModel::Lit(spec_arg_value(ExprModel::Ident(n), m)),
        ExprModel::Array(es) => ExprModel::Array(spec_resolves(es, m)),
        _ => ExprModel::Lit(LiteralModel::Null),
    }
}

/// Identifier substitution over an ordered expression list.
pub open spec fn spec_resolves(es: Seq<ExprModel>, m: Seq<(Seq<char>, LiteralModel)>) -> Seq<
    ExprModel,
>
    decreases es,
{
    if es.len() == 0 {
        Seq::empty()
    } else {
        spec_resolves(es.drop_last(), m).push(spec_resolve(es.last(), m))
    }
}

/// The display text of a literal, used when a value becomes message
/// content.
pub open spec fn lit_display(l: LiteralModel) -> Seq<char> {
    match l {
        LiteralModel::Int(i) => int_text(i),
        LiteralModel::Str(s) => s,
        LiteralModel::Float(t) => t,
        LiteralModel::Bool(b) => if b {
            "true"@
        } else {
            "false"@
        },
        LiteralModel::Null => "NULL"@,
    }
}

/// A literal is truthy unless it is null, false, zero, or empty text.
pub open spec fn spec_truthy(l: LiteralModel) -> bool {
    match l {
        LiteralModel::Int(i) => i != 0,
        LiteralModel::Str(s) => s.len() > 0,
        LiteralModel::Float(_) => true,
        LiteralModel::Bool(b) => b,
        LiteralModel::Null => false,
    }
}

/// An expression whose evaluation draws no random choice: every `one_of`
/// call in statement position has at most one argument.
pub open spec fn expr_det(e: ExprModel) -> bool
    decreases e,
{
    match e {
        ExprModel::Action { fun, act } => !(fun == LiteralModel::Str("one_of"@) && spec_args(
            *act,
        ).len() > 1),
        ExprModel::If { cond, consequence } => exprs_det(consequence),
        _ => true,
    }
}

/// Determinism of an ordered expression list.
pub open spec fn exprs_det(es: Seq<ExprModel>) -> bool
    decreases es,
{
    if es.len() == 0 {
        true
    } else {
        expr_det(es[0]) && exprs_det(es.drop_first())
    }
}

/// A value-position expression whose evaluation draws no random choice:
/// it is not a `one_of` call over more than one element.
pub open spec fn value_det(e: ExprModel) -> bool {
    match e {
        ExprModel::Action { fun, act } => !(fun == LiteralModel::Str("one_of"@) && spec_args(
            *act,
        ).len() > 1),
        _ => true,
    }
}

/// Determinism of a statement.
pub open spec fn stmt_det(st: StmtModel) -> bool {
    match st {
        StmtModel::Expr(e) => expr_det(e),
        StmtModel::Mem(_, e) => value_det(e),
    }
}

/// The value a statement-level evaluation yields: the first argument for
/// the lenient value-producing built-ins, a selection from the argument
/// list for `one_of` (stated here for the single-choice case; the random
/// case is bounded by the evaluator's own contract), null for an unknown
/// built-in, and the argument-position value otherwise.
pub open spec fn spec_value(e: ExprModel, m: Seq<(Seq<char>, LiteralModel)>) -> Result<
    LiteralModel,
    InterpError,
> {
    match e {
        ExprModel::Action { fun, act } => {
            let args = spec_args(*act);
            if fun == LiteralModel::Str("one_of"@) {
                if args.len() == 0 {
                    Err(InterpError::SelectionError)
                } else {
                    Ok(spec_arg_value(args[0], m))
                }
            } else if fun == LiteralModel::Str("typing"@) || fun == LiteralModel::Str("wait"@)
                || fun == LiteralModel::Str("text"@) || fun == LiteralModel::Str("url"@) {
                if args.len() == 0 {
                    Ok(LiteralModel::Null)
                } else {
                    Ok(spec_arg_value(args[0], m))
                }
            } else {
                Ok(LiteralModel::Null)
            }
        },
        _ => Ok(spec_arg_value(e, m)),
    }
}

/// The literal a resolved expression carries, null when it is not a
/// literal expression.
pub open spec fn lit_of_resolved(e: ExprModel) -> LiteralModel {
    match e {
        ExprModel::Lit(l) => l,
        _ => LiteralModel::Null,
    }
}

/// A message of the given tag whose content is plain text.
pub open spec fn msg_model(name: Seq<char>, body: Seq<char>) -> MessageModel {
    MessageModel { my_type: name, content: ContentModel::Text(body) }
}

/// The `button` call shape, over the model of a resolved argument.
pub open spec fn button_shape_model(e: ExprModel) -> bool {
    &&& e matches ExprModel::Array(v)
    &&& v.len() == 2
    &&& v[0] matches ExprModel::Lit(LiteralModel::Str(_))
    &&& v[1] matches ExprModel::Array(_)
}

/// The display strings of an argument list, over models.
pub open spec fn spec_exprvec_model(s: Seq<ExprModel>) -> Seq<Seq<char>>
    decreases s,
{
    if s.len() == 0 {
        Seq::empty()
    } else {
        let rest = spec_exprvec_model(s.drop_last());
        match s.last() {
            ExprModel::Lit(LiteralModel::Str(st)) => rest.push(st),
            ExprModel::Lit(LiteralModel::Int(i)) => rest.push(int_text(i)),
            _ => rest,
        }
    }
}

/// The message a `button` call produces from its resolved argument.
pub open spec fn spec_button_msg(rarg: ExprModel) -> MessageModel {
    if button_shape_model(rarg) {
        MessageModel {
            my_type: "Button"@,
            content: ContentModel::Button(
                rarg->Array_0[0]->Lit_0->Str_0,
                spec_exprvec_model(rarg->Array_0[1]->Array_0),
            ),
        }
    } else {
        MessageModel {
            my_type: "say"@,
            content: ContentModel::Button("Button"@, Seq::empty()),
        }
    }
}

/// Messages and outcome of evaluating one expression in statement
/// position: built-in calls produce their messages, a truthy conditional
/// inlines its consequence in order, and anything else is effect-free.
pub open spec fn spec_do_expr(e: ExprModel, m: Seq<(Seq<char>, LiteralModel)>) -> (
    Seq<MessageModel>,
    Option<InterpError>,
)
    decreases e, 1int,
{
    match e {
        ExprModel::Action { fun, act } => spec_do_action(fun, *act, m),
        ExprModel::If { cond, consequence } => {
            if spec_truthy(spec_arg_value(*cond, m)) {
                spec_do_exprs(consequence, m)
            } else {
                (Seq::empty(), None)
            }
        },
        _ => (Seq::empty(), None),
    }
}

/// Messages and outcome of an ordered expression list in statement
/// position; an error stops the evaluation of the rest.
pub open spec fn spec_do_exprs(es: Seq<ExprModel>, m: Seq<(Seq<char>, LiteralModel)>) -> (
    Seq<MessageModel>,
    Option<InterpError>,
)
    decreases es, 0int,
{
    if es.len() == 0 {
        (Seq::empty(), None)
    } else {
        let (h, he) = spec_do_expr(es[0], m);
        if he is Some {
            (h, he)
        } else {
            let (t, te) = spec_do_exprs(es.drop_first(), m);
            (h + t, te)
        }
    }
}

/// The messages a built-in call in statement position produces.
pub open spec fn spec_do_action(
    fun: LiteralModel,
    act: ExprModel,
    m: Seq<(Seq<char>, LiteralModel)>,
) -> (Seq<MessageModel>, Option<InterpError>) {
    let args = spec_args(act);
    if fun == LiteralModel::Str("button"@) {
        (seq![spec_button_msg(spec_resolve(act, m))], None)
    } else if fun == LiteralModel::Str("one_of"@) {
        if args.len() == 0 && act matches ExprModel::Array(_) {
            (Seq::empty(), Some(InterpError::SelectionError))
        } else {
            (seq![msg_model("one_of"@, lit_display(spec_arg_value(args[0], m)))], None)
        }
    } else if fun == LiteralModel::Str("typing"@) {
        spec_value_action_msgs("typing"@, args, m)
    } else if fun == LiteralModel::Str("wait"@) {
        spec_value_action_msgs("wait"@, args, m)
    } else if fun == LiteralModel::Str("text"@) {
        spec_value_action_msgs("text"@, args, m)
    } else if fun == LiteralModel::Str("url"@) {
        spec_value_action_msgs("url"@, args, m)
    } else {
        (Seq::empty(), None)
    }
}

/// The message of a lenient value-producing built-in: the display text of
/// its first argument, and no message at all without arguments.
pub open spec fn spec_value_action_msgs(
    name: Seq<char>,
    args: Seq<ExprModel>,
    m: Seq<(Seq<char>, LiteralModel)>,
) -> (Seq<MessageModel>, Option<InterpError>) {
    if args.len() == 0 {
        (Seq::empty(), None)
    } else {
        (seq![msg_model(name, lit_display(spec_arg_value(args[0], m)))], None)
    }
}

/// Effect of one statement: its messages, the memory after it, and its
/// outcome.
pub open spec fn spec_step(st: StmtModel, m: Seq<(Seq<char>, LiteralModel)>) -> (
    Seq<MessageModel>,
    Seq<(Seq<char>, LiteralModel)>,
    Option<InterpError>,
) {
    match st {
        StmtModel::Expr(e) => {
            let (ms, err) = spec_do_expr(e, m);
            (ms, m, err)
        },
        StmtModel::Mem(name, e) => match spec_value(e, m) {
            Ok(l) => (Seq::empty(), m.push((name, l)), None),
            Err(er) => (Seq::empty(), m, Some(er)),
        },
    }
}

/// The models of a statement list.
pub open spec fn stmt_models(sts: Seq<Stmt>) -> Seq<StmtModel> {
    Seq::new(sts.len(), |i: int| sts[i]@)
}

/// Effect of running the statements from index `k` on: messages in
/// evaluation order, the final memory, and the outcome of the first
/// failing statement, if any.
pub open spec fn spec_run(
    sts: Seq<StmtModel>,
    m: Seq<(Seq<char>, LiteralModel)>,
    k: int,
) -> (Seq<MessageModel>, Seq<(Seq<char>, LiteralModel)>, Option<InterpError>)
    decreases sts.len() - k,
{
    if k < 0 || k >= sts.len() {
        (Seq::empty(), m, None)
    } else {
        let (ms, m1, e1) = spec_step(sts[k], m);
        if e1 is Some {
            (ms, m1, e1)
        } else {
            let (ms2, m2, e2) = spec_run(sts, m1, k + 1);
            (ms + ms2, m2, e2)
        }
    }
}

/// Element-wise reading of the model of an expression list.
pub proof fn lemma_expr_models_index(es: Seq<Expr>)
    ensures
        expr_models(es).len() == es.len(),
        forall|i: int| 0 <= i < es.len() ==> expr_models(es)[i] == expr_model(es[i]),
    decreases es.len(),
{
    if es.len() > 0 {
        lemma_expr_models_index(es.drop_last());
    }
}

/// Element-wise reading of identifier substitution over a list.
pub proof fn lemma_spec_resolves_index(es: Seq<ExprModel>, m: Seq<(Seq<char>, LiteralModel)>)
    ensures
        spec_resolves(es, m).len() == es.len(),
        forall|i: int| 0 <= i < es.len() ==> spec_resolves(es, m)[i] == spec_resolve(es[i], m),
    decreases es.len(),
{
    if es.len() > 0 {
        lemma_spec_resolves_index(es.drop_last(), m);
    }
}

/// The display-string fold reads the same on an expression list and on
/// its models.
pub proof fn lemma_exprvec_model(es: Seq<Expr>)
    ensures
        spec_exprvec(es) == spec_exprvec_model(expr_models(es)),
    decreases es.len(),
{
    if es.len() > 0 {
        lemma_exprvec_model(es.drop_last());
        assert(expr_models(es).drop_last() =~= expr_models(es.drop_last()));
        assert(expr_models(es).last() == expr_model(es.last()));
    }
}

/// A resolved expression carries exactly the argument-position value of
/// the expression it came from.
pub proof fn lemma_arg_value_resolve(e: ExprModel, m: Seq<(Seq<char>, LiteralModel)>)
    ensures
        lit_of_resolved(spec_resolve(e, m)) == spec_arg_value(e, m),
{
}

/// The display text of a literal.
pub fn lit_to_string(l: &Literal) -> (r: String)
    ensures
        r@ == lit_display(l@),
{
    match l {
        Literal::IntLiteral(i) => i64_to_string(*i),
        Literal::StringLiteral(s) => s.clone(),
        Literal::FloatLiteral(t) => t.clone(),
        Literal::BoolLiteral(b) => if *b {
            "true".to_owned()
        } else {
            "false".to_owned()
        },
        Literal::NullLiteral => "NULL".to_owned(),
    }
}

/// Whether a literal is exactly the given keyword as a string.
fn lit_is_name(fun: &Literal, kw: &str) -> (r: bool)
    ensures
        r == (fun@ == LiteralModel::Str(kw@)),
{
    match fun {
        Literal::StringLiteral(s) => {
            let k: String = kw.to_owned();
            *s == k
        },
        _ => false,
    }
}

/// Truthiness of a literal value.
pub fn truthy(l: &Literal) -> (r: bool)
    ensures
        r == spec_truthy(l@),
{
    match l {
        Literal::IntLiteral(i) => *i != 0,
        Literal::StringLiteral(s) => !s.as_str().is_empty(),
        Literal::FloatLiteral(_) => true,
        Literal::BoolLiteral(b) => *b,
        Literal::NullLiteral => false,
    }
}

/// The value an argument-position expression stands for.
pub fn arg_value(e: &Expr, m: &Memory) -> (r: Literal)
    ensures
        r@ == spec_arg_value(e@, m@),
{
    match e {
        Expr::LitExpr(l) => l.clone(),
        Expr::IdentExpr(id) => match m.get(id) {
            Some(l) => l.clone(),
            None => Literal::NullLiteral,
        },
        _ => Literal::NullLiteral,
    }
}

/// The literal a resolved expression carries.
fn lit_of_resolved_exec(e: &Expr) -> (r: Literal)
    ensures
        r@ == lit_of_resolved(e@),
{
    match e {
        Expr::LitExpr(l) => l.clone(),
        _ => Literal::NullLiteral,
    }
}

/// Identifier substitution on an expression tree.
#[verifier::loop_isolation(false)]
pub fn resolve_expr(e: &Expr, m: &Memory) -> (r: Expr)
    ensures
        r@ == spec_resolve(e@, m@),
    decreases *e,
{
    match e {
        Expr::LitExpr(l) => Expr::LitExpr(l.clone()),
        Expr::IdentExpr(_) => Expr::LitExpr(arg_value(e, m)),
        Expr::ArrayExpr(es) => {
            let ghost ms = expr_models(es@);
            proof {
                lemma_expr_models_index(es@);
            }
            let mut out: Vec<Expr> = Vec::new();
            let mut i: usize = 0;
            while i < es.len()
                invariant
                    i <= es@.len(),
                    ms == expr_models(es@),
                    ms.len() == es@.len(),
                    forall|k: int| 0 <= k < es@.len() ==> ms[k] == expr_model(es@[k]),
                    expr_models(out@) == spec_resolves(ms.take(i as int), m@),
                decreases es@.len() - i,
            {
                let ghost pre = out@;
                proof {
                    assert(decreases_to!(*e => e->ArrayExpr_0));
                    assert(decreases_to!(e->ArrayExpr_0 => e->ArrayExpr_0@));
                    assert(decreases_to!(e->ArrayExpr_0@ => e->ArrayExpr_0@[i as int]));
                }
                let rs = resolve_expr(&es[i], m);
                out.push(rs);
                i = i + 1;
                proof {
                    assert(out@.drop_last() =~= pre);
                    assert(expr_models(out@) == expr_models(pre).push(expr_model(out@.last())));
                    assert(ms.take(i as int).drop_last() =~= ms.take(i - 1));
                    assert(ms.take(i as int).last() == ms[i - 1]);
                }
            }
            proof {
                assert(ms.take(es@.len() as int) =~= ms);
            }
            Expr::ArrayExpr(out)
        },
        _ => Expr::LitExpr(Literal::NullLiteral),
    }
}

/// Messages of one built-in call in statement position. When the call is
/// a random selection over more than one element, the message still
/// carries the display text of one of the call's own arguments.
/// An empty message list.
fn no_messages() -> (r: Vec<Message>)
    ensures
        r.deep_view() == Seq::<MessageModel>::empty(),
{
    let v: Vec<Message> = Vec::new();
    proof {
        assert(v.deep_view() =~= Seq::<MessageModel>::empty());
    }
    v
}

pub fn do_action(fun: &Literal, act: &Expr, m: &Memory) -> (r: (Vec<Message>, Option<InterpError>))
    ensures
        !(fun@ == LiteralModel::Str("one_of"@) && spec_args(act@).len() > 1) ==> ({
            let (ms, err) = spec_do_action(fun@, act@, m@);
            r.0.deep_view() == ms && r.1 == err
        }),
        fun@ == LiteralModel::Str("one_of"@) && spec_args(act@).len() > 1 ==> (r.1 is None
            && r.0.deep_view().len() == 1 && exists|i: int|
            0 <= i < spec_args(act@).len() && r.0.deep_view()[0] == msg_model(
                "one_of"@,
                lit_display(spec_arg_value(spec_args(act@)[i], m@)),
            )),
{
    let ghost args = spec_args(act@);
    proof {
        reveal_strlit("button");
        reveal_strlit("one_of");
        reveal_strlit("typing");
        reveal_strlit("wait");
        reveal_strlit("text");
        reveal_strlit("url");
        // the revealed names differ in their first characters, which is
        // what separates the dispatch branches in the contracts
        assert("button"@[0] == 'b' && "one_of"@[0] == 'o');
        assert("button"@ != "one_of"@);
    }
    if lit_is_name(fun, "button") {
        let resolved = resolve_expr(act, m);
        let mt = builtins::button(&resolved);
        let MessageType::Msg(msg) = mt;
        let mut v: Vec<Message> = Vec::new();
        proof {
            lemma_button_shape_model(&resolved);
            assert(fun@ != LiteralModel::Str("one_of"@));
        }
        v.push(msg);
        proof {
            assert(v.deep_view() =~= seq![spec_button_msg(resolved@)]);
        }
        (v, None)
    } else if lit_is_name(fun, "one_of") {
        let resolved = resolve_expr(act, m);
        proof {
            match act@ {
                ExprModel::Array(es) => {
                    lemma_spec_resolves_index(es, m@);
                },
                _ => {},
            }
            match &resolved {
                Expr::ArrayExpr(rv) => {
                    lemma_expr_models_index(rv@);
                },
                _ => {},
            }
        }
        match builtins::one_of(&resolved) {
            Err(er) => {
                proof {
                    match act@ {
                        ExprModel::Array(es) => {
                            match &resolved {
                                Expr::ArrayExpr(rv) => {
                                    assert(rv@.len() == es.len());
                                    assert(es.len() == 0);
                                },
                                _ => {
                                    assert(false);
                                },
                            }
                        },
                        _ => {
                            assert(false);
                        },
                    }
                }
                (no_messages(), Some(er))
            },
            Ok(chosen) => {
                let val = lit_of_resolved_exec(chosen);
                let ghost mut wi: int = 0;
                proof {
                    match act@ {
                        ExprModel::Array(es) => {
                            assert forall|i: int| 0 <= i < es.len() implies lit_of_resolved(
                                spec_resolve(es[i], m@),
                            ) == spec_arg_value(es[i], m@) by {
                                lemma_arg_value_resolve(es[i], m@);
                            }
                            match &resolved {
                                Expr::ArrayExpr(rv) => {
                                    assert(rv@.len() == es.len());
                                    if rv@.len() > 0 {
                                        let i = choose|i: int|
                                            0 <= i < rv@.len() && *chosen == rv@[i];
                                        assert(chosen@ == expr_models(rv@)[i]);
                                        assert(chosen@ == spec_resolve(es[i], m@));
                                        assert(val@ == spec_arg_value(es[i], m@));
                                        wi = i;
                                    }
                                },
                                _ => {
                                    assert(false);
                                },
                            }
                        },
                        _ => {
                            lemma_arg_value_resolve(act@, m@);
                            assert(*chosen == resolved);
                            assert(val@ == spec_arg_value(act@, m@));
                        },
                    }
                }
                let body = lit_to_string(&val);
                let mut v: Vec<Message> = Vec::new();
                v.push(Message { my_type: "one_of".to_owned(), content: Content::Text(body) });
                proof {
                    assert(v.deep_view() =~= seq![msg_model("one_of"@, lit_display(val@))]);
                    if args.len() > 1 {
                        assert(0 <= wi < spec_args(act@).len() && v.deep_view()[0] == msg_model(
                            "one_of"@,
                            lit_display(spec_arg_value(spec_args(act@)[wi], m@)),
                        ));
                        assert(exists|i: int|
                            0 <= i < spec_args(act@).len() && v.deep_view()[0] == msg_model(
                                "one_of"@,
                                lit_display(spec_arg_value(spec_args(act@)[i], m@)),
                            ));
                    }
                }
                (v, None)
            },
        }
    } else if lit_is_name(fun, "typing") {
        proof {
            assert(fun@ != LiteralModel::Str("one_of"@));
        }
        value_action(fun, act, m, 0)
    } else if lit_is_name(fun, "wait") {
        proof {
            assert(fun@ != LiteralModel::Str("one_of"@));
        }
        value_action(fun, act, m, 1)
    } else if lit_is_name(fun, "text") {
        proof {
            assert(fun@ != LiteralModel::Str("one_of"@));
        }
        value_action(fun, act, m, 2)
    } else if lit_is_name(fun, "url") {
        proof {
            assert(fun@ != LiteralModel::Str("one_of"@));
        }
        value_action(fun, act, m, 3)
    } else {
        (no_messages(), None)
    }
}

/// Shared path of the four lenient value-producing built-ins in
/// statement position: resolve, call the built-in, display its value.
fn value_action(fun: &Literal, act: &Expr, m: &Memory, which: u8) -> (r: (
    Vec<Message>,
    Option<InterpError>,
))
    requires
        which == 0 ==> fun@ == LiteralModel::Str("typing"@),
        which == 1 ==> fun@ == LiteralModel::Str("wait"@),
        which == 2 ==> fun@ == LiteralModel::Str("text"@),
        which == 3 ==> fun@ == LiteralModel::Str("url"@),
        which <= 3,
        fun@ matches LiteralModel::Str(_),
    ensures
        ({
            let (ms, err) = spec_value_action_msgs(fun@->Str_0, spec_args(act@), m@);
            r.0.deep_view() == ms && r.1 == err
        }),
{
    let resolved = resolve_expr(act, m);
    let ghost args = spec_args(act@);
    proof {
        match act@ {
            ExprModel::Array(es) => {
                lemma_spec_resolves_index(es, m@);
            },
            _ => {},
        }
        match &resolved {
            Expr::ArrayExpr(rv) => {
                lemma_expr_models_index(rv@);
            },
            _ => {},
        }
    }
    let is_empty_array = match &resolved {
        Expr::ArrayExpr(v) => v.len() == 0,
        _ => false,
    };
    if is_empty_array {
        proof {
            assert(args.len() == 0);
        }
        return (no_messages(), None);
    }
    let out = if which == 0 {
        builtins::typing(&resolved)
    } else if which == 1 {
        builtins::wait(&resolved)
    } else if which == 2 {
        builtins::text(&resolved)
    } else {
        builtins::url(&resolved)
    };
    let val = lit_of_resolved_exec(out);
    proof {
        match act@ {
            ExprModel::Array(es) => {
                match &resolved {
                    Expr::ArrayExpr(rv) => {
                        assert(rv@.len() == es.len());
                        assert(rv@.len() > 0);
                        assert(*out == rv@[0]);
                        assert(out@ == expr_models(rv@)[0]);
                        assert(out@ == spec_resolve(es[0], m@));
                        lemma_arg_value_resolve(es[0], m@);
                        assert(val@ == spec_arg_value(es[0], m@));
                        assert(args[0] == es[0]);
                    },
                    _ => {
                        assert(false);
                    },
                }
            },
            _ => {
                assert(*out == resolved);
                lemma_arg_value_resolve(act@, m@);
                assert(val@ == spec_arg_value(act@, m@));
                assert(args[0] == act@);
            },
        }
    }
    let name = lit_to_string(fun);
    let body = lit_to_string(&val);
    let mut v: Vec<Message> = Vec::new();
    v.push(Message { my_type: name, content: Content::Text(body) });
    proof {
        assert(v.deep_view() =~= seq![msg_model(fun@->Str_0, lit_display(val@))]);
    }
    (v, None)
}

/// Element-wise reading of list determinism.
pub proof fn lemma_exprs_det_index(es: Seq<ExprModel>)
    requires
        exprs_det(es),
    ensures
        forall|i: int| 0 <= i < es.len() ==> expr_det(es[i]),
    decreases es.len(),
{
    if es.len() > 0 {
        lemma_exprs_det_index(es.drop_first());
        assert forall|i: int| 0 <= i < es.len() implies expr_det(es[i]) by {
            if i > 0 {
                assert(es[i] == es.drop_first()[i - 1]);
            }
        }
    }
}

/// Messages and outcome of one expression in statement position: a
/// built-in call produces its messages, a truthy conditional inlines its
/// consequence, anything else is effect-free.
#[verifier::loop_isolation(false)]
pub fn do_expr(e: &Expr, m: &Memory) -> (r: (Vec<Message>, Option<InterpError>))
    ensures
        expr_det(e@) ==> ({
            let (ms, err) = spec_do_expr(e@, m@);
            r.0.deep_view() == ms && r.1 == err
        }),
    decreases *e,
{
    match e {
        Expr::Action { fun, act } => do_action(fun, act, m),
        Expr::IfExpr { cond, consequence } => {
            let c = arg_value(&**cond, m);
            if !truthy(&c) {
                return (no_messages(), None);
            }
            let ghost cms = expr_models(consequence@);
            proof {
                lemma_expr_models_index(consequence@);
                if exprs_det(cms) {
                    lemma_exprs_det_index(cms);
                }
            }
            let mut msgs: Vec<Message> = no_messages();
            let mut i: usize = 0;
            proof {
                assert(cms.skip(0) =~= cms);
                assert(msgs.deep_view() + spec_do_exprs(cms, m@).0 =~= spec_do_exprs(cms, m@).0);
            }
            while i < consequence.len()
                invariant
                    i <= consequence@.len(),
                    exprs_det(cms) ==> ({
                        let (fm, fe) = spec_do_exprs(cms, m@);
                        let (rm, re) = spec_do_exprs(cms.skip(i as int), m@);
                        fm == msgs.deep_view() + rm && fe == re
                    }),
                decreases consequence@.len() - i,
            {
                proof {
                    assert(decreases_to!(*e => e->IfExpr_consequence));
                    assert(decreases_to!(e->IfExpr_consequence => e->IfExpr_consequence@));
                    assert(decreases_to!(e->IfExpr_consequence@ => e->IfExpr_consequence@[i as int]));
                }
                let ghost pre = msgs.deep_view();
                let (mut ms, err) = do_expr(&consequence[i], m);
                let ghost step = ms.deep_view();
                msgs.append(&mut ms);
                proof {
                    assert(msgs.deep_view() =~= pre + step);
                    assert(cms.skip(i as int)[0] == cms[i as int]);
                    assert(cms.skip(i as int).drop_first() =~= cms.skip(i + 1));
                }
                if let Some(er) = err {
                    proof {
                        if exprs_det(cms) {
                            assert(spec_do_exprs(cms, m@).0 =~= msgs.deep_view());
                        }
                    }
                    return (msgs, Some(er));
                }
                i = i + 1;
                proof {
                    if exprs_det(cms) {
                        assert(spec_do_exprs(cms, m@).0 =~= msgs.deep_view() + spec_do_exprs(
                            cms.skip(i as int),
                            m@,
                        ).0);
                    }
                }
            }
            proof {
                if exprs_det(cms) {
                    assert(spec_do_exprs(cms, m@).0 =~= msgs.deep_view());
                }
            }
            (msgs, None)
        },
        _ => (no_messages(), None),
    }
}

/// The value a statement-level expression evaluates to, for binding into
/// memory. When the expression is a random selection over more than one
/// element, the result is still one of the call's own argument values.
pub fn eval_value(e: &Expr, m: &Memory) -> (r: Result<Literal, InterpError>)
    ensures
        value_det(e@) ==> (match r {
            Ok(l) => spec_value(e@, m@) == Ok::<LiteralModel, InterpError>(l@),
            Err(er) => spec_value(e@, m@) == Err::<LiteralModel, InterpError>(er),
        }),
        !value_det(e@) ==> (r matches Ok(l) && exists|i: int|
            0 <= i < spec_args(*e@->Action_act).len() && l@ == spec_arg_value(
                spec_args(*e@->Action_act)[i],
                m@,
            )),
{
    match e {
        Expr::Action { fun, act } => {
            proof {
                reveal_strlit("one_of");
                reveal_strlit("typing");
                reveal_strlit("wait");
                reveal_strlit("text");
                reveal_strlit("url");
                // the revealed names differ at these positions, which is
                // what separates the dispatch branches in the contracts
                assert("typing"@[0] == 't' && "one_of"@[0] == 'o' && "wait"@[0] == 'w' && "url"@[1]
                    == 'r' && "text"@[1] == 'e');
            }
            if lit_is_name(fun, "one_of") {
                let resolved = resolve_expr(act, m);
                proof {
                    match act@ {
                        ExprModel::Array(es) => {
                            lemma_spec_resolves_index(es, m@);
                        },
                        _ => {},
                    }
                    match &resolved {
                        Expr::ArrayExpr(rv) => {
                            lemma_expr_models_index(rv@);
                        },
                        _ => {},
                    }
                }
                match builtins::one_of(&resolved) {
                    Err(er) => {
                        proof {
                            match act@ {
                                ExprModel::Array(es) => {
                                    match &resolved {
                                        Expr::ArrayExpr(rv) => {
                                            assert(rv@.len() == es.len());
                                        },
                                        _ => {
                                            assert(false);
                                        },
                                    }
                                },
                                _ => {
                                    assert(false);
                                },
                            }
                        }
                        Err(er)
                    },
                    Ok(chosen) => {
                        let val = lit_of_resolved_exec(chosen);
                        let ghost mut wi: int = 0;
                        proof {
                            match act@ {
                                ExprModel::Array(es) => {
                                    assert forall|i: int| 0 <= i < es.len() implies lit_of_resolved(
                                        spec_resolve(es[i], m@),
                                    ) == spec_arg_value(es[i], m@) by {
                                        lemma_arg_value_resolve(es[i], m@);
                                    }
                                    match &resolved {
                                        Expr::ArrayExpr(rv) => {
                                            assert(rv@.len() == es.len());
                                            if rv@.len() > 0 {
                                                let i = choose|i: int|
                                                    0 <= i < rv@.len() && *chosen == rv@[i];
                                                assert(chosen@ == expr_models(rv@)[i]);
                                                assert(chosen@ == spec_resolve(es[i], m@));
                                                assert(val@ == spec_arg_value(es[i], m@));
                                                wi = i;
                                            }
                                        },
                                        _ => {
                                            assert(false);
                                        },
                                    }
                                },
                                _ => {
                                    lemma_arg_value_resolve(act@, m@);
                                    assert(*chosen == resolved);
                                    assert(val@ == spec_arg_value(act@, m@));
                                },
                            }
                            if !value_det(e@) {
                                assert(0 <= wi < spec_args(*e@->Action_act).len() && val@
                                    == spec_arg_value(spec_args(*e@->Action_act)[wi], m@));
                            }
                        }
                        Ok(val)
                    },
                }
            } else if lit_is_name(fun, "typing") {
                Ok(builtin_value(act, m))
            } else if lit_is_name(fun, "wait") {
                Ok(builtin_value(act, m))
            } else if lit_is_name(fun, "text") {
                Ok(builtin_value(act, m))
            } else if lit_is_name(fun, "url") {
                Ok(builtin_value(act, m))
            } else {
                Ok(Literal::NullLiteral)
            }
        },
        _ => Ok(arg_value(e, m)),
    }
}

/// The value the four lenient value-producing built-ins hand back: their
/// first argument's value, null without arguments.
fn builtin_value(act: &Expr, m: &Memory) -> (l: Literal)
    ensures
        l@ == (if spec_args(act@).len() == 0 {
            LiteralModel::Null
        } else {
            spec_arg_value(spec_args(act@)[0], m@)
        }),
{
    let resolved = resolve_expr(act, m);
    proof {
        match act@ {
            ExprModel::Array(es) => {
                lemma_spec_resolves_index(es, m@);
            },
            _ => {},
        }
        match &resolved {
            Expr::ArrayExpr(rv) => {
                lemma_expr_models_index(rv@);
            },
            _ => {},
        }
    }
    let out = builtins::text(&resolved);
    let val = lit_of_resolved_exec(out);
    proof {
        match act@ {
            ExprModel::Array(es) => {
                match &resolved {
                    Expr::ArrayExpr(rv) => {
                        assert(rv@.len() == es.len());
                        if es.len() > 0 {
                            assert(*out == rv@[0]);
                            assert(out@ == expr_models(rv@)[0]);
                            lemma_arg_value_resolve(es[0], m@);
                            assert(val@ == spec_arg_value(es[0], m@));
                        }
                    },
                    _ => {
                        assert(false);
                    },
                }
            },
            _ => {
                assert(*out == resolved);
                lemma_arg_value_resolve(act@, m@);
                assert(val@ == spec_arg_value(act@, m@));
            },
        }
    }
    val
}

/// The shape test of `button` reads the same on an expression and on its
/// model.
pub proof fn lemma_button_shape_model(x: &Expr)
    ensures
        button_ok_shape(*x) <==> button_shape_model(x@),
        button_ok_shape(*x) ==> spec_button_msg(x@) == (MessageModel {
            my_type: "Button"@,
            content: ContentModel::Button(
                x->ArrayExpr_0@[0]->LitExpr_0->StringLiteral_0@,
                spec_exprvec(x->ArrayExpr_0@[1]->ArrayExpr_0@),
            ),
        }),
{
    match x {
        Expr::ArrayExpr(es) => {
            lemma_expr_models_index(es@);
            if es@.len() == 2 {
                assert(x@->Array_0[0] == expr_model(es@[0]));
                assert(x@->Array_0[1] == expr_model(es@[1]));
                if button_ok_shape(*x) {
                    lemma_exprvec_model(es@[1]->ArrayExpr_0@);
                }
            }
        },
        _ => {},
    }
}

/// Effect of one statement: an expression statement yields its messages,
/// a memory statement binds its value; either surfaces the first error.
pub fn exec_stmt(st: &Stmt, mem: &mut Memory) -> (r: (Vec<Message>, Option<InterpError>))
    ensures
        stmt_det(st@) ==> ({
            let (ms, m2, err) = spec_step(st@, old(mem)@);
            r.0.deep_view() == ms && final(mem)@ == m2 && r.1 == err
        }),
{
    match st {
        Stmt::ExprStmt(e) => do_expr(e, mem),
        Stmt::MemStmt(id, e) => match eval_value(e, mem) {
            Ok(l) => {
                mem.set(id.clone(), l);
                (no_messages(), None)
            },
            Err(er) => (no_messages(), Some(er)),
        },
    }
}

/// Result of interpreting one step: the output messages in evaluation
/// order, the control-flow verdict (none means the step completed and
/// evaluation continues), and the error behind an `Error` verdict.
#[derive(Debug)]
pub struct StepResult {
    pub messages: Vec<Message>,
    pub exit: Option<ExitCondition>,
    pub error: Option<InterpError>,
}

/// Interprets the current step: resumes at the statement the instruction
/// pointer designates, evaluates the remaining statements in source
/// order, advances the pointer after each one, and clears it when the
/// step completes or fails. On an error the loop-marker stack is cleared
/// too and the messages already produced are kept.
#[verifier::loop_isolation(false)]
pub fn interpret_block(block: &Vec<Stmt>, mem: &mut Memory, ctx: &mut StateContext) -> (r:
    StepResult)
    ensures
        final(ctx).rip == 0,
        (r.error is Some <==> r.exit == Some(ExitCondition::Error)),
        (r.exit is Some ==> r.exit == Some(ExitCondition::Error)),
        r.error is None ==> final(ctx).state == old(ctx).state,
        r.error is Some ==> final(ctx).state@.len() == 0,
        ({
            let start = if old(ctx).rip <= block@.len() {
                old(ctx).rip as int
            } else {
                block@.len() as int
            };
            (forall|k: int| start <= k < block@.len() ==> stmt_det(stmt_models(block@)[k])) ==> ({
                let (ms, m2, err) = spec_run(stmt_models(block@), old(mem)@, start);
                r.messages.deep_view() == ms && final(mem)@ == m2 && r.error == err
            })
        }),
{
    let len = block.len();
    let mut i: usize = ctx.get_rip();
    if i > len {
        i = len;
    }
    let ghost start = i as int;
    let ghost models = stmt_models(block@);
    let ghost m0 = mem@;
    let mut msgs: Vec<Message> = no_messages();
    proof {
        assert(msgs.deep_view() + spec_run(models, m0, start).0 =~= spec_run(models, m0, start).0);
    }
    while i < len
        invariant
            start <= i <= len,
            ctx.rip == i || (old(ctx).rip > len && i == len && ctx.rip == old(ctx).rip),
            ctx.state == old(ctx).state,
            (forall|k: int| start <= k < len ==> stmt_det(models[k])) ==> ({
                let full = spec_run(models, m0, start);
                let rest = spec_run(models, mem@, i as int);
                full.0 == msgs.deep_view() + rest.0 && full.1 == rest.1 && full.2 == rest.2
            }),
        decreases len - i,
    {
        let ghost mem_pre = mem@;
        let ghost pre = msgs.deep_view();
        let (mut ms, err) = exec_stmt(&block[i], mem);
        let ghost step = ms.deep_view();
        msgs.append(&mut ms);
        proof {
            assert(msgs.deep_view() =~= pre + step);
            assert(models[i as int] == block@[i as int]@);
        }
        match err {
            Some(er) => {
                ctx.clear_rip();
                ctx.clear_state();
                proof {
                    if forall|k: int| start <= k < len ==> stmt_det(models[k]) {
                        assert(spec_run(models, m0, start).0 =~= msgs.deep_view());
                    }
                }
                return StepResult {
                    messages: msgs,
                    exit: Some(ExitCondition::Error),
                    error: Some(er),
                };
            },
            None => {
                ctx.inc_rip();
                i = i + 1;
                proof {
                    if forall|k: int| start <= k < len ==> stmt_det(models[k]) {
                        assert(spec_run(models, m0, start).0 =~= msgs.deep_view() + spec_run(
                            models,
                            mem@,
                            i as int,
                        ).0);
                    }
                }
            },
        }
    }
    ctx.clear_rip();
    proof {
        if forall|k: int| start <= k < len ==> stmt_det(models[k]) {
            assert(spec_run(models, m0, start).0 =~= msgs.deep_view());
        }
    }
    StepResult { messages: msgs, exit: None, error: None }
}

/// Resolves a step label in a program: the first block under that label,
/// or the flow error naming it when no block carries it.
pub fn get_step<'a>(program: &'a Vec<BlockStmt>, label: &String) -> (r: Result<
    &'a BlockStmt,
    InterpError,
>)
    ensures
        (match r {
            Ok(b) => exists|i: int|
                0 <= i < program@.len() && program@[i].label@ == label@ && *b == program@[i] && (
                forall|j: int| 0 <= j < i ==> program@[j].label@ != label@),
            Err(e) => {
                &&& forall|i: int| 0 <= i < program@.len() ==> program@[i].label@ != label@
                &&& e matches InterpError::FlowError { label: l } && l@ == label@
            },
        }),
{
    let mut i: usize = 0;
    while i < program.len()
        invariant
            i <= program@.len(),
            forall|j: int| 0 <= j < i ==> program@[j].label@ != label@,
        decreases program@.len() - i,
    {
        if program[i].label == *label {
            return Ok(&program[i]);
        }
        i = i + 1;
    }
    Err(InterpError::FlowError { label: label.clone() })
}

} // verus!
