//! A small extended-grep engine.
//!
//! A pattern written in a reduced regular-expression syntax (literals, `.`,
//! bracket expressions with POSIX character classes, anchors, repetition
//! suffixes and top-level alternation) is compiled into a list of
//! alternatives, each an ordered list of tokens.  A compiled expression can
//! then be matched against candidate strings; matching is substring based and
//! works with a greedy, backtracking strategy.
//!
//! Every data structure and algorithm of the engine is specified and verified:
//! compilation is proved to produce exactly the token lists described by the
//! specification functions, and matching is proved to compute the result of
//! the backtracking machine that defines the engine's semantics.

pub mod cadena;

pub mod error_expresion_bracket;

pub mod error_lectura_archivos;

pub mod error_regex;

pub mod repeticion_regex_token;

pub mod clase_caracter;

pub mod iterador_vec;

pub mod valor_regex_token;

pub mod regex_token;

pub mod maquina;

pub mod expresion;

pub mod rango_repeticion;

pub mod expresion_bracket;

pub mod regex;

pub mod egrep;

pub mod leyes;
