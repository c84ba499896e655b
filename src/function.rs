//! Compiled functions and the executable that holds them.
use vstd::prelude::*;
use crate::token::TokenPos;

verus! {

#[derive(Debug, Clone, Copy, PartialEq, Eq, Structural)]
pub enum FunctionName {
    Anonymous,
    Named { start_index: usize, end_index: usize },
}

pub open spec fn anonymous_text() -> Seq<char> {
    seq!['A', 'n', 'o', 'n', 'y', 'm', 'o', 'u', 's']
}

impl FunctionName {
    /// The name's text: its range of the string data, or "Anonymous".
    pub fn fmt(self, string_data: &[char]) -> (r: Vec<char>)
        requires
            self matches FunctionName::Named { start_index, end_index } ==> start_index
                <= end_index <= string_data@.len(),
        ensures
            r@ == (match self {
                FunctionName::Anonymous => anonymous_text(),
                FunctionName::Named { start_index, end_index } => string_data@.subrange(
                    start_index as int,
                    end_index as int,
                ),
            }),
    {
        match self {
            FunctionName::Anonymous => {
                let r = vec!['A', 'n', 'o', 'n', 'y', 'm', 'o', 'u', 's'];
                assert(r@ =~= anonymous_text());
                r
            },
            FunctionName::Named { start_index, end_index } => {
                let mut r: Vec<char> = Vec::new();
                let mut k = start_index;
                while k < end_index
                    invariant
                        start_index <= k <= end_index <= string_data@.len(),
                        r@ == string_data@.subrange(start_index as int, k as int),
                    decreases end_index - k,
                {
                    r.push(string_data[k]);
                    k = k + 1;
                    assert(r@ =~= string_data@.subrange(start_index as int, k as int));
                }
                r
            },
        }
    }
}

/// `code_map[i]` is the source position of `code[i]`.
#[derive(Debug, Clone)]
pub struct CahnFunction {
    pub param_count: u8,
    pub code: Vec<u8>,
    pub code_map: Vec<TokenPos>,
    pub name: FunctionName,
}

impl CahnFunction {
    fn new_helper(param_count: u8, code: Vec<u8>, code_map: Vec<TokenPos>, name: FunctionName) -> (r:
        Self)
        ensures
            r.param_count == param_count,
            r.code@ == code@,
            r.code_map@ == code_map@,
            r.name == name,
    {
        CahnFunction { param_count, code, code_map, name }
    }

    pub fn new(
        param_count: u8,
        code: Vec<u8>,
        code_map: Vec<TokenPos>,
        name_start: usize,
        name_end: usize,
    ) -> (r: Self)
        ensures
            r.param_count == param_count,
            r.code@ == code@,
            r.code_map@ == code_map@,
            r.name == (FunctionName::Named { start_index: name_start, end_index: name_end }),
    {
        Self::new_helper(
            param_count,
            code,
            code_map,
            FunctionName::Named { start_index: name_start, end_index: name_end },
        )
    }

    pub fn new_anonymous(param_count: u8, code: Vec<u8>, code_map: Vec<TokenPos>) -> (r: Self)
        ensures
            r.param_count == param_count,
            r.code@ == code@,
            r.code_map@ == code_map@,
            r.name == FunctionName::Anonymous,
    {
        Self::new_helper(param_count, code, code_map, FunctionName::Anonymous)
    }
}

/// A compiled program. The script itself is the last function.
#[derive(Debug, Clone)]
pub struct Executable {
    /// The decimal text of each numeric constant; a constant's value is the
    /// `f64` nearest to its text.
    pub num_consts: Vec<Vec<char>>,
    pub functions: Vec<CahnFunction>,
    pub source_file: String,
    pub string_data: Vec<char>,
}

impl Executable {
    pub fn new(
        num_consts: Vec<Vec<char>>,
        string_data: Vec<char>,
        source_file: String,
        functions: Vec<CahnFunction>,
    ) -> (r: Self)
        ensures
            r.num_consts@ == num_consts@,
            r.string_data@ == string_data@,
            r.source_file@ == source_file@,
            r.functions@ == functions@,
    {
        Executable { num_consts, functions, source_file, string_data }
    }
}

} // verus!
