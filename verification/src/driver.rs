//! What a compiler run checks of its command line before it reads anything.
use vstd::prelude::*;
use crate::lexer::source_chars;

verus! {

pub open spec fn usage_message(program: Seq<char>) -> Seq<char> {
    "usage: "@ + program + " <input.c>"@
}

/// Whether a path names a C source file: it ends in `.c`.
pub open spec fn is_c_source(path: Seq<char>) -> bool {
    path.len() >= 2 && path[path.len() - 2] == '.' && path[path.len() - 1] == 'c'
}

pub open spec fn not_c_source_message(path: Seq<char>) -> Seq<char> {
    "expected a .c input file, received: "@ + path
}

/// The usage line for the program named `program`.
pub fn usage(program: &str) -> (r: String)
    ensures
        r@ == usage_message(program@),
{
    let mut m = String::from_str("usage: ");
    m.append(program);
    m.append(" <input.c>");
    m
}

/// Accepts only paths of C source files.
pub fn check_source_path(path: &str) -> (r: Result<(), String>)
    ensures
        r is Ok <==> is_c_source(path@),
        r matches Err(m) ==> m@ == not_c_source_message(path@),
{
    let chars = source_chars(path);
    let n = chars.len();
    if n >= 2 && chars[n - 2] == '.' && chars[n - 1] == 'c' {
        Ok(())
    } else {
        let mut m = String::from_str("expected a .c input file, received: ");
        m.append(path);
        Err(m)
    }
}

} // verus!
