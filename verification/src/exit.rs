//! The process exit code an error message maps to.
use vstd::prelude::*;
use crate::security::{refusal_message, OutputRefusal};
use crate::text::{
    chars_of, contains, contains_exec, lacks_pair, lemma_lacks_pair, lemma_lacks_pair_add, occurs_at,
};

verus! {

/// Exit code for a failed run: 3 for authentication problems, 2 for file and
/// path security problems (a file that cannot be opened, a symbolic link, a
/// `..` traversal, a system directory), 1 for anything else.
pub open spec fn exit_code_for(message: Seq<char>) -> u8 {
    if contains(message, "Authentication"@) || contains(message, "credentials"@) {
        3
    } else if contains(message, "Cannot open"@) || contains(message, "symbolic link"@) || contains(
        message,
        "traversal"@,
    ) || contains(message, "system directories"@) {
        2
    } else {
        1
    }
}

/// Whether `needle` occurs in the characters `m`.
fn mentions(m: &Vec<char>, needle: &str) -> (res: bool)
    ensures
        res == contains(m@, needle@),
{
    let n = chars_of(needle);
    contains_exec(m, &n)
}

/// The exit code for a run that failed with `message`.
pub fn exit_code_for_error(message: &str) -> (res: u8)
    ensures
        res == exit_code_for(message@),
{
    let m = chars_of(message);
    if mentions(&m, "Authentication") || mentions(&m, "credentials") {
        3
    } else if mentions(&m, "Cannot open") || mentions(&m, "symbolic link") || mentions(&m, "traversal")
        || mentions(&m, "system directories") {
        2
    } else {
        1
    }
}

/// Law: a failure whose message names neither an authentication problem
/// ("Authentication", "credentials") nor a file or path security problem
/// ("Cannot open", "symbolic link", "traversal", "system directories")
/// exits with code 1, whatever else the message says.
pub proof fn law_other_failures_exit_code_1(message: Seq<char>)
    requires
        !contains(message, "Authentication"@),
        !contains(message, "credentials"@),
        !contains(message, "Cannot open"@),
        !contains(message, "symbolic link"@),
        !contains(message, "traversal"@),
        !contains(message, "system directories"@),
    ensures
        exit_code_for(message) == 1,
{
}

/// Law: a failure whose message names an authentication problem exits with
/// code 3, and one that names a file or path security problem but no
/// authentication problem exits with code 2.
pub proof fn law_problem_exit_codes(message: Seq<char>)
    ensures
        contains(message, "Authentication"@) || contains(message, "credentials"@) ==> exit_code_for(
            message,
        ) == 3,
        !contains(message, "Authentication"@) && !contains(message, "credentials"@) && (contains(
            message,
            "Cannot open"@,
        ) || contains(message, "symbolic link"@) || contains(message, "traversal"@) || contains(
            message,
            "system directories"@,
        )) ==> exit_code_for(message) == 2,
{
}

/// Law: every refused output path makes the run exit with code 2, the code
/// for file and path security problems.
pub proof fn law_output_refusals_exit_code_2(r: OutputRefusal)
    ensures
        exit_code_for(refusal_message(r)) == 2,
{
    let m = refusal_message(r);
    reveal_strlit("Authentication");
    reveal_strlit("credentials");
    reveal_strlit("Output path must not contain '..' traversal");
    reveal_strlit("Output path must not be a symbolic link");
    reveal_strlit("Output parent directory must not be a symbolic link");
    reveal_strlit("Writing to system directories is not allowed");
    reveal_strlit("traversal");
    reveal_strlit("symbolic link");
    reveal_strlit("system directories");
    let h: int = match r {
        OutputRefusal::Traversal => 21,
        OutputRefusal::PathIsLink => 19,
        OutputRefusal::ParentIsLink => 25,
        OutputRefusal::SystemDirectory => 22,
    };
    let front = m.subrange(0, h);
    let back = m.subrange(h, m.len() as int);
    assert(m =~= front + back);
    reveal_with_fuel(lacks_pair, 30);
    assert(lacks_pair(front, 'A', 'u'));
    assert(lacks_pair(back, 'A', 'u'));
    assert(lacks_pair(front, 'c', 'r'));
    assert(lacks_pair(back, 'c', 'r'));
    assert(front.last() != 'A' && front.last() != 'c');
    lemma_lacks_pair_add(front, back, 'A', 'u');
    lemma_lacks_pair_add(front, back, 'c', 'r');
    lemma_lacks_pair(m, "Authentication"@);
    lemma_lacks_pair(m, "credentials"@);
    match r {
        OutputRefusal::Traversal => {
            assert(m.subrange(34, 43) =~= "traversal"@);
            assert(occurs_at(m, "traversal"@, 34));
        },
        OutputRefusal::PathIsLink => {
            assert(m.subrange(26, 39) =~= "symbolic link"@);
            assert(occurs_at(m, "symbolic link"@, 26));
        },
        OutputRefusal::ParentIsLink => {
            assert(m.subrange(38, 51) =~= "symbolic link"@);
            assert(occurs_at(m, "symbolic link"@, 38));
        },
        OutputRefusal::SystemDirectory => {
            assert(m.subrange(11, 29) =~= "system directories"@);
            assert(occurs_at(m, "system directories"@, 11));
        },
    }
}

} // verus!
