//! An engine for arithmetic expressions given as text: numbers, the operators
//! `+ - * / ^`, signs, parentheses, and the functions `sin`, `cos`, `tan` and `log`.
//!
//! An expression is converted from infix to postfix notation and then evaluated. The
//! engine decides what is computed and in which order, and tells every malformed
//! expression by a typed error. It holds numbers as decimal text: the arithmetic on
//! them is asked of the caller, one operation at a time.
#![allow(non_camel_case_types)]

pub mod math_parser;
