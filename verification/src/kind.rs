//! Script-kind detection and interpreter selection for host-direct
//! execution: in execute mode the process resolves the script's kind from
//! its file-name extension and runs the matching interpreter.

use vstd::prelude::*;

use crate::paths;

verus! {

/// The script kinds host-direct execution recognizes.
#[derive(Clone, Copy, PartialEq, Eq, Structural, Debug)]
pub enum CodeKind {
    Python,
}

/// A path recognized as a Python script: its file name ends in `.py` with
/// a non-empty stem, so the extension of the file name is exactly `py`.
pub open spec fn is_python_path(path: Seq<u8>) -> bool {
    let n = paths::file_name(path);
    n.len() >= 4 && n[n.len() - 3] == 46 && n[n.len() - 2] == 112 && n[n.len() - 1] == 121
}

/// Detects the script kind from the path's file-name extension; `None` is
/// the fatal "could not detect code kind" case.
pub fn detect_kind(path: &Vec<u8>) -> (r: Option<CodeKind>)
    ensures
        is_python_path(path@) ==> r == Some(CodeKind::Python),
        !is_python_path(path@) ==> r is None,
{
    let name = paths::file_name_bytes(path);
    let n = name.len();
    if n >= 4 && name[n - 3] == 46 && name[n - 2] == 112 && name[n - 1] == 121 {
        Some(CodeKind::Python)
    } else {
        None
    }
}

/// The interpreter word for Python scripts (`python3`).
pub open spec fn python_interpreter() -> Seq<u8> {
    seq![112u8, 121u8, 116u8, 104u8, 111u8, 110u8, 51u8]
}

/// The synchronous interpreter invocation for a detected script kind: the
/// interpreter word followed by the script path.
pub fn interpreter_argv(kind: CodeKind, path: &Vec<u8>) -> (r: Vec<Vec<u8>>)
    ensures
        r@.len() == 2,
        r@[0]@ == python_interpreter(),
        r@[1]@ == path@,
{
    let mut prog: Vec<u8> = Vec::new();
    match kind {
        CodeKind::Python => {
            prog.push(112);
            prog.push(121);
            prog.push(116);
            prog.push(104);
            prog.push(111);
            prog.push(110);
            prog.push(51);
        },
    }
    proof {
        assert(prog@ =~= python_interpreter());
    }
    let mut args: Vec<Vec<u8>> = Vec::new();
    args.push(prog);
    args.push(paths::copy_bytes(path));
    args
}

} // verus!
