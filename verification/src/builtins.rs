//! Built-in function dispatch: validates the shape of the arguments that
//! an `Action` expression hands over and returns either a passthrough
//! expression or a constructed output message.
//!
//! Dispatch is lenient: the value-producing built-ins fall back to the
//! first argument on unexpected shapes, and `button` degrades to a default
//! message. The one strengthening over that policy is `one_of`, which
//! reports a selection error on an empty argument array instead of
//! failing at the out-of-bounds access.

use vstd::prelude::*;
use crate::ast::{Expr, Literal};
use crate::errors::InterpError;
use crate::message::{Content, ContentModel, Message, MessageType};
use crate::num_text::{int_text, i64_to_string};

verus! {

/// The display strings that an argument array is coerced to: string
/// literals keep their text, integer literals turn into decimal text,
/// anything else is dropped.
pub open spec fn spec_exprvec(s: Seq<Expr>) -> Seq<Seq<char>>
    decreases s,
{
    if s.len() == 0 {
        Seq::empty()
    } else {
        let rest = spec_exprvec(s.drop_last());
        match s.last() {
            Expr::LitExpr(Literal::StringLiteral(st)) => rest.push(st@),
            Expr::LitExpr(Literal::IntLiteral(i)) => rest.push(int_text(i as int)),
            _ => rest,
        }
    }
}

/// The first element of an argument array; the argument expression itself
/// when it is not an array or is empty. This is what the lenient
/// value-producing built-ins hand back.
pub open spec fn first_arg_or_self(args: Expr) -> Expr {
    match args {
        Expr::ArrayExpr(v) => if v@.len() > 0 {
            v@[0]
        } else {
            args
        },
        _ => args,
    }
}

/// Coerces an argument array to its display strings, in order.
pub fn exprvec_to_vec(vec: &Vec<Expr>) -> (r: Vec<String>)
    ensures
        r.deep_view() == spec_exprvec(vec@),
{
    let mut r: Vec<String> = Vec::new();
    let mut i: usize = 0;
    while i < vec.len()
        invariant
            i <= vec@.len(),
            r.deep_view() == spec_exprvec(vec@.take(i as int)),
        decreases vec@.len() - i,
    {
        let ghost pre = r.deep_view();
        match &vec[i] {
            Expr::LitExpr(Literal::StringLiteral(string)) => {
                r.push(string.clone());
            },
            Expr::LitExpr(Literal::IntLiteral(n)) => {
                r.push(i64_to_string(*n));
            },
            _ => {},
        }
        i = i + 1;
        proof {
            assert(vec@.take(i as int).drop_last() =~= vec@.take(i - 1));
            assert(vec@.take(i as int).last() == vec@[i - 1]);
            assert(r.deep_view() =~= spec_exprvec(vec@.take(i as int)));
        }
    }
    proof {
        assert(vec@.take(vec@.len() as int) =~= vec@);
    }
    r
}

/// `typing`: expects one argument and passes it through unchanged.
pub fn typing<'a>(args: &'a Expr) -> (r: &'a Expr)
    ensures
        *r == first_arg_or_self(*args),
{
    match args {
        Expr::ArrayExpr(vec) => {
            if vec.len() == 1 {
                if let Expr::LitExpr(Literal::IntLiteral(_)) = &vec[0] {
                    return &vec[0];
                }
            }
            if vec.len() > 0 {
                &vec[0]
            } else {
                args
            }
        },
        _ => args,
    }
}

/// `wait`: expects one argument and passes it through unchanged.
pub fn wait<'a>(args: &'a Expr) -> (r: &'a Expr)
    ensures
        *r == first_arg_or_self(*args),
{
    match args {
        Expr::ArrayExpr(vec) => {
            if vec.len() == 1 {
                if let Expr::LitExpr(Literal::IntLiteral(_)) = &vec[0] {
                    return &vec[0];
                }
            }
            if vec.len() > 0 {
                &vec[0]
            } else {
                args
            }
        },
        _ => args,
    }
}

/// `text`: expects one literal argument and passes it through unchanged.
pub fn text<'a>(args: &'a Expr) -> (r: &'a Expr)
    ensures
        *r == first_arg_or_self(*args),
{
    match args {
        Expr::ArrayExpr(vec) => {
            if vec.len() == 1 {
                if let Expr::LitExpr(_) = &vec[0] {
                    return &vec[0];
                }
            }
            if vec.len() > 0 {
                &vec[0]
            } else {
                args
            }
        },
        _ => args,
    }
}

/// `url`: expects one literal argument and passes it through unchanged.
pub fn url<'a>(args: &'a Expr) -> (r: &'a Expr)
    ensures
        *r == first_arg_or_self(*args),
{
    match args {
        Expr::ArrayExpr(vec) => {
            if vec.len() == 1 {
                if let Expr::LitExpr(_) = &vec[0] {
                    return &vec[0];
                }
            }
            if vec.len() > 0 {
                &vec[0]
            } else {
                args
            }
        },
        _ => args,
    }
}

/// The `button` call shape: exactly a string-literal label and an array
/// of options.
pub open spec fn button_ok_shape(args: Expr) -> bool {
    &&& args matches Expr::ArrayExpr(v)
    &&& v@.len() == 2
    &&& v@[0] matches Expr::LitExpr(Literal::StringLiteral(_))
    &&& v@[1] matches Expr::ArrayExpr(_)
}

/// `button`: on the expected shape, a `Button`-typed message carrying the
/// label and the coerced option strings; on any mismatch, the default
/// fallback message with label `Button` and no options.
pub fn button(args: &Expr) -> (m: MessageType)
    ensures
        button_ok_shape(*args) ==> {
            &&& m@.my_type == "Button"@
            &&& m@.content matches ContentModel::Button(label, options)
            &&& label == args->ArrayExpr_0@[0]->LitExpr_0->StringLiteral_0@
            &&& options == spec_exprvec(args->ArrayExpr_0@[1]->ArrayExpr_0@)
        },
        !button_ok_shape(*args) ==> {
            &&& m@.my_type == "say"@
            &&& m@.content matches ContentModel::Button(label, options)
            &&& label == "Button"@
            &&& options == Seq::<Seq<char>>::empty()
        },
{
    if let Expr::ArrayExpr(vec) = args {
        if vec.len() == 2 {
            if let (Expr::LitExpr(Literal::StringLiteral(arg1)), Expr::ArrayExpr(arg2)) = (
                &vec[0],
                &vec[1],
            ) {
                return MessageType::Msg(
                    Message {
                        my_type: "Button".to_owned(),
                        content: Content::Button(arg1.clone(), exprvec_to_vec(arg2)),
                    },
                );
            }
        }
    }
    let fallback = MessageType::Msg(
        Message {
            my_type: "say".to_owned(),
            content: Content::Button("Button".to_owned(), Vec::new()),
        },
    );
    proof {
        assert(fallback@.content->Button_1 =~= Seq::<Seq<char>>::empty());
    }
    fallback
}

/// Relies on rand::random_range over `0..len`: every index it returns
/// lies below `len`; the range must not be empty.
#[verifier::external_body]
fn random_index(len: usize) -> (r: usize)
    requires
        len > 0,
    ensures
        r < len,
{
    rand::random_range(0..len)
}

/// `one_of`: one element of the argument array, selected at random; a
/// selection error on an empty array; the argument itself when it is not
/// an array.
pub fn one_of<'a>(args: &'a Expr) -> (r: Result<&'a Expr, InterpError>)
    ensures
        (match args {
            Expr::ArrayExpr(v) => {
                if v@.len() > 0 {
                    r matches Ok(e) && exists|i: int| 0 <= i < v@.len() && *e == v@[i]
                } else {
                    r matches Err(InterpError::SelectionError)
                }
            },
            _ => r matches Ok(e) && e == args,
        }),
{
    match args {
        Expr::ArrayExpr(vec) => {
            if vec.len() == 0 {
                Err(InterpError::SelectionError)
            } else {
                let i = random_index(vec.len());
                Ok(&vec[i])
            }
        },
        _ => Ok(args),
    }
}

} // verus!
