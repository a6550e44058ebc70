//! The abstract syntax of the language.

use std::rc::Rc;
use vstd::prelude::*;
use crate::text::{bool_text, bool_to_string, decimal, i32_to_string};

verus! {

/// An expression. A composite expression shares its parts with whoever
/// else holds them; nothing changes an expression once it is built.
#[derive(Debug)]
pub enum LetLangExp {
    ConstExp(i32),
    Boolean(bool),
    DiffExp(Rc<LetLangExp>, Rc<LetLangExp>),
    IsZeroExp(Rc<LetLangExp>),
    IfExp(Rc<LetLangExp>, Rc<LetLangExp>, Rc<LetLangExp>),
    VarExp(String),
    LetExp(String, Rc<LetLangExp>, Rc<LetLangExp>),
}

/// An expression as a tree: the same shapes, with names as sequences of
/// characters.
pub enum ExpModel {
    ConstExp(i32),
    Boolean(bool),
    DiffExp(Box<ExpModel>, Box<ExpModel>),
    IsZeroExp(Box<ExpModel>),
    IfExp(Box<ExpModel>, Box<ExpModel>, Box<ExpModel>),
    VarExp(Seq<char>),
    LetExp(Seq<char>, Box<ExpModel>, Box<ExpModel>),
}

impl ExpModel {
    /// The expression written out in the language's own syntax.
    pub open spec fn text(self) -> Seq<char>
        decreases self,
    {
        match self {
            ExpModel::ConstExp(n) => decimal(n as int),
            ExpModel::Boolean(b) => bool_text(b),
            ExpModel::DiffExp(e1, e2) => "-("@ + e1.text() + ", "@ + e2.text() + ")"@,
            ExpModel::IsZeroExp(e) => "iszero("@ + e.text() + ")"@,
            ExpModel::IfExp(e1, e2, e3) => "if "@ + e1.text() + " then "@ + e2.text() + " else "@
                + e3.text(),
            ExpModel::VarExp(v) => v,
            ExpModel::LetExp(v, e1, e2) => "let "@ + v + " = "@ + e1.text() + " in "@ + e2.text(),
        }
    }
}

impl LetLangExp {
    pub open spec fn view(&self) -> ExpModel
        decreases self,
    {
        match self {
            LetLangExp::ConstExp(n) => ExpModel::ConstExp(*n),
            LetLangExp::Boolean(b) => ExpModel::Boolean(*b),
            LetLangExp::DiffExp(e1, e2) => ExpModel::DiffExp(
                Box::new((**e1).view()),
                Box::new((**e2).view()),
            ),
            LetLangExp::IsZeroExp(e) => ExpModel::IsZeroExp(Box::new((**e).view())),
            LetLangExp::IfExp(e1, e2, e3) => ExpModel::IfExp(
                Box::new((**e1).view()),
                Box::new((**e2).view()),
                Box::new((**e3).view()),
            ),
            LetLangExp::VarExp(v) => ExpModel::VarExp(v@),
            LetLangExp::LetExp(v, e1, e2) => ExpModel::LetExp(
                v@,
                Box::new((**e1).view()),
                Box::new((**e2).view()),
            ),
        }
    }

    pub fn new_const_exp(num: i32) -> (r: Self)
        ensures
            r@ == ExpModel::ConstExp(num),
    {
        LetLangExp::ConstExp(num)
    }

    pub fn new_boolean(tv: bool) -> (r: Self)
        ensures
            r@ == ExpModel::Boolean(tv),
    {
        LetLangExp::Boolean(tv)
    }

    pub fn new_diff_exp(arg1: &LetLangExp, arg2: &LetLangExp) -> (r: Self)
        ensures
            r@ == ExpModel::DiffExp(Box::new(arg1@), Box::new(arg2@)),
    {
        LetLangExp::DiffExp(Rc::new(arg1.clone()), Rc::new(arg2.clone()))
    }

    pub fn new_iszero(arg: &LetLangExp) -> (r: Self)
        ensures
            r@ == ExpModel::IsZeroExp(Box::new(arg@)),
    {
        LetLangExp::IsZeroExp(Rc::new(arg.clone()))
    }

    pub fn new_if_exp(arg1: &LetLangExp, arg2: &LetLangExp, arg3: &LetLangExp) -> (r: Self)
        ensures
            r@ == ExpModel::IfExp(Box::new(arg1@), Box::new(arg2@), Box::new(arg3@)),
    {
        LetLangExp::IfExp(Rc::new(arg1.clone()), Rc::new(arg2.clone()), Rc::new(arg3.clone()))
    }

    pub fn new_var_exp(s: &String) -> (r: Self)
        ensures
            r@ == ExpModel::VarExp(s@),
    {
        LetLangExp::VarExp(s.clone())
    }

    pub fn new_let_exp(s: &String, arg1: &LetLangExp, arg2: &LetLangExp) -> (r: Self)
        ensures
            r@ == ExpModel::LetExp(s@, Box::new(arg1@), Box::new(arg2@)),
    {
        LetLangExp::LetExp(s.clone(), Rc::new(arg1.clone()), Rc::new(arg2.clone()))
    }

    /// Appends the text of the expression to `out`.
    fn write_to(&self, out: &mut String)
        ensures
            final(out)@ == old(out)@ + self@.text(),
        decreases self,
    {
        let ghost start = out@;
        match self {
            LetLangExp::ConstExp(n) => {
                let s = i32_to_string(*n);
                out.append(s.as_str());
            },
            LetLangExp::Boolean(b) => {
                let s = bool_to_string(*b);
                out.append(s.as_str());
            },
            LetLangExp::DiffExp(e1, e2) => {
                out.append("-(");
                e1.write_to(out);
                out.append(", ");
                e2.write_to(out);
                out.append(")");
                assert(out@ =~= start + self@.text());
            },
            LetLangExp::IsZeroExp(e) => {
                out.append("iszero(");
                e.write_to(out);
                out.append(")");
                assert(out@ =~= start + self@.text());
            },
            LetLangExp::IfExp(e1, e2, e3) => {
                out.append("if ");
                e1.write_to(out);
                out.append(" then ");
                e2.write_to(out);
                out.append(" else ");
                e3.write_to(out);
                assert(out@ =~= start + self@.text());
            },
            LetLangExp::VarExp(v) => {
                out.append(v.as_str());
            },
            LetLangExp::LetExp(v, e1, e2) => {
                out.append("let ");
                out.append(v.as_str());
                out.append(" = ");
                e1.write_to(out);
                out.append(" in ");
                e2.write_to(out);
                assert(out@ =~= start + self@.text());
            },
        }
    }

    /// The expression written out in the language's own syntax.
    pub fn to_string(&self) -> (r: String)
        ensures
            r@ == self@.text(),
    {
        let mut r = String::new();
        self.write_to(&mut r);
        assert(r@ =~= self@.text());
        r
    }
}

impl Clone for LetLangExp {
    /// A copy, which shares the parts of the expression it is made from.
    fn clone(&self) -> (r: LetLangExp)
        ensures
            r@ == self@,
    {
        match self {
            LetLangExp::ConstExp(n) => LetLangExp::ConstExp(*n),
            LetLangExp::Boolean(b) => LetLangExp::Boolean(*b),
            LetLangExp::DiffExp(e1, e2) => LetLangExp::DiffExp(e1.clone(), e2.clone()),
            LetLangExp::IsZeroExp(e) => LetLangExp::IsZeroExp(e.clone()),
            LetLangExp::IfExp(e1, e2, e3) => LetLangExp::IfExp(e1.clone(), e2.clone(), e3.clone()),
            LetLangExp::VarExp(v) => LetLangExp::VarExp(v.clone()),
            LetLangExp::LetExp(v, e1, e2) => LetLangExp::LetExp(v.clone(), e1.clone(), e2.clone()),
        }
    }
}

} // verus!
