use vstd::prelude::*;
use crate::math_parser::text::{chars_of, string_of};

verus! {

/// A function of the catalogue: its name and the number of arguments it takes.
pub struct math_function {
    pub name: String,
    pub arity: usize,
}

/// The catalogue: `sin`, `cos` and `tan` take one argument, `log` takes two, the value
/// and then the base. `None` for any other name.
pub open spec fn arity_of(name: Seq<char>) -> Option<usize> {
    if name == seq!['s', 'i', 'n'] || name == seq!['c', 'o', 's'] || name == seq!['t', 'a', 'n'] {
        Some(1usize)
    } else if name == seq!['l', 'o', 'g'] {
        Some(2usize)
    } else {
        None
    }
}

impl math_function {
    /// Looks a function up by its name.
    pub fn new(inp: &str) -> (r: Option<Self>)
        ensures
            match r {
                Some(f) => f.name@ == inp@ && arity_of(inp@) == Some(f.arity),
                None => arity_of(inp@) is None,
            },
    {
        let v = chars_of(inp);
        if v.len() != 3 {
            return None;
        }
        let a = v[0];
        let b = v[1];
        let c = v[2];
        let single = (a == 's' && b == 'i' && c == 'n') || (a == 'c' && b == 'o' && c == 's') || (a
            == 't' && b == 'a' && c == 'n');
        let double = a == 'l' && b == 'o' && c == 'g';
        proof {
            assert(single ==> (v@ =~= seq!['s', 'i', 'n'] || v@ =~= seq!['c', 'o', 's'] || v@
                =~= seq!['t', 'a', 'n']));
            assert(double ==> v@ =~= seq!['l', 'o', 'g']);
            assert(seq!['s', 'i', 'n'][0] == 's' && seq!['s', 'i', 'n'][1] == 'i' && seq!['s', 'i', 'n'][2] == 'n');
            assert(seq!['c', 'o', 's'][0] == 'c' && seq!['c', 'o', 's'][1] == 'o' && seq!['c', 'o', 's'][2] == 's');
            assert(seq!['t', 'a', 'n'][0] == 't' && seq!['t', 'a', 'n'][1] == 'a' && seq!['t', 'a', 'n'][2] == 'n');
            assert(seq!['l', 'o', 'g'][0] == 'l' && seq!['l', 'o', 'g'][1] == 'o' && seq!['l', 'o', 'g'][2] == 'g');
        }
        if single {
            Some(math_function { name: string_of(&v), arity: 1 })
        } else if double {
            Some(math_function { name: string_of(&v), arity: 2 })
        } else {
            None
        }
    }
}

} // verus!
