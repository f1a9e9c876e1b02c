//! Completion commands: snippet expansion and completion shaping.
//!
//! The completion results themselves are shaped by the analyzer facade;
//! what lives here is the snippet catalog, a closed set of templates
//! expanded by name.

use vstd::prelude::*;

verus! {

pub struct CompletionCommands;

/// Do two strings hold the same characters?
pub fn str_eq(a: &str, b: &str) -> (r: bool)
    ensures
        r == (a@ == b@),
{
    let s1 = a.to_owned();
    let s2 = b.to_owned();
    s1.eq(&s2)
}

impl CompletionCommands {
    /// The snippet template under `name`: one of the five known
    /// templates, exactly as written here, and nothing for any other
    /// name.
    pub fn expand_snippet(&self, name: &str) -> (r: Option<&'static str>)
        ensures
            name@ == "match_expr"@ ==> match r {
                Some(s) => s@
                    == "match ${1:expression} {\n    ${2:pattern} => ${3:value},\n    _ => ${4:default},\n}"@,
                None => false,
            },
            name@ == "if_let"@ ==> match r {
                Some(s) => s@ == "if let ${1:Some(value)} = ${2:expression} {\n    ${3:// body}\n}"@,
                None => false,
            },
            name@ == "for_loop"@ ==> match r {
                Some(s) => s@ == "for ${1:item} in ${2:iterator} {\n    ${3:// body}\n}"@,
                None => false,
            },
            name@ == "impl_trait"@ ==> match r {
                Some(s) => s@ == "impl ${1:Trait} for ${2:Type} {\n    ${3:// implementation}\n}"@,
                None => false,
            },
            name@ == "test_fn"@ ==> match r {
                Some(s) => s@ == "#[test]\nfn ${1:test_name}() {\n    ${2:// test body}\n}"@,
                None => false,
            },
            (name@ != "match_expr"@ && name@ != "if_let"@ && name@ != "for_loop"@ && name@
                != "impl_trait"@ && name@ != "test_fn"@) ==> r is None,
    {
        proof {
            reveal_strlit("match_expr");
            reveal_strlit("if_let");
            reveal_strlit("for_loop");
            reveal_strlit("impl_trait");
            reveal_strlit("test_fn");
            assert("match_expr"@.len() == 10);
            assert("if_let"@.len() == 6);
            assert("for_loop"@.len() == 8);
            assert("impl_trait"@.len() == 10);
            assert("test_fn"@.len() == 7);
            assert("match_expr"@[0] == 'm');
            assert("impl_trait"@[0] == 'i');
            assert("match_expr"@ != "impl_trait"@);
        }
        if str_eq(name, "match_expr") {
            Some("match ${1:expression} {\n    ${2:pattern} => ${3:value},\n    _ => ${4:default},\n}")
        } else if str_eq(name, "if_let") {
            Some("if let ${1:Some(value)} = ${2:expression} {\n    ${3:// body}\n}")
        } else if str_eq(name, "for_loop") {
            Some("for ${1:item} in ${2:iterator} {\n    ${3:// body}\n}")
        } else if str_eq(name, "impl_trait") {
            Some("impl ${1:Trait} for ${2:Type} {\n    ${3:// implementation}\n}")
        } else if str_eq(name, "test_fn") {
            Some("#[test]\nfn ${1:test_name}() {\n    ${2:// test body}\n}")
        } else {
            None
        }
    }
}

} // verus!
