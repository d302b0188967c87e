//! The boundary to the schema compiler: how it is called and what a run of it
//! comes to. Running it is left to the caller.

use vstd::prelude::*;
use vstd::string::*;

verus! {

/// The arguments that the schema compiler takes to write bindings for this
/// runtime: `-o`, the path of the output, the path of the schema, and the
/// target language.
pub fn compiler_arguments(output_path: &str, source_path: &str) -> (arguments: Vec<String>)
    ensures
        arguments@.len() == 4,
        arguments@[0]@ == "-o"@,
        arguments@[1]@ == output_path@,
        arguments@[2]@ == source_path@,
        arguments@[3]@ == "rust"@,
{
    let mut arguments: Vec<String> = Vec::with_capacity(4);
    arguments.push("-o".to_owned());
    arguments.push(output_path.to_owned());
    arguments.push(source_path.to_owned());
    arguments.push("rust".to_owned());
    arguments
}

/// The text of the failure of a run that wrote `stdout` and `stderr`: both,
/// as they are, under one heading.
pub open spec fn failure_text(stdout: Seq<char>, stderr: Seq<char>) -> Seq<char> {
    "Bragi compiler failed:\n"@ + stdout + "\n"@ + stderr
}

/// What a run of the schema compiler comes to: nothing to report where it
/// left with success, else a single failure that holds what it wrote to its
/// standard output and to its standard error.
pub fn compiler_outcome(succeeded: bool, stdout: &str, stderr: &str) -> (r: Result<(), String>)
    ensures
        match r {
            Ok(_) => succeeded,
            Err(text) => !succeeded && text@ == failure_text(stdout@, stderr@),
        },
{
    if succeeded {
        Ok(())
    } else {
        let mut text = "Bragi compiler failed:\n".to_owned();
        text.append(stdout);
        text.append("\n");
        text.append(stderr);
        Err(text)
    }
}

} // verus!
