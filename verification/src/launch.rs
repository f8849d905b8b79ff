//! Construction of the sandbox launch invocations.
//!
//! Two mutually exclusive strategies exist.  Host-direct re-invokes the
//! orchestrator's own executable with the script path as sole argument and
//! the execute-mode environment flag set.  Container-isolated runs the
//! container runtime with a read-only bind mount of the resolved script
//! into a fixed in-container path.  This module computes every word of
//! those invocations from plain values; spawning and path resolution are
//! the application's part.

use vstd::prelude::*;

use crate::paths;

verus! {

/// Launch construction failure: the script path has no file-name
/// component (it is empty, ends in a separator, or names `..`).
#[derive(Clone, Copy, PartialEq, Eq, Structural, Debug)]
pub enum LaunchError {
    NoFileName,
}

/// The container runtime program.
pub open spec fn docker_word() -> Seq<u8> {
    seq![100u8, 111u8, 99u8, 107u8, 101u8, 114u8]
}

fn docker_word_bytes() -> (r: Vec<u8>)
    ensures
        r@ == docker_word(),
{
    let mut v: Vec<u8> = Vec::new();
    v.push(100);
    v.push(111);
    v.push(99);
    v.push(107);
    v.push(101);
    v.push(114);
    proof {
        assert(v@ =~= docker_word());
    }
    v
}

/// The container runtime's run subcommand.
pub open spec fn run_word() -> Seq<u8> {
    seq![114u8, 117u8, 110u8]
}

fn run_word_bytes() -> (r: Vec<u8>)
    ensures
        r@ == run_word(),
{
    let mut v: Vec<u8> = Vec::new();
    v.push(114);
    v.push(117);
    v.push(110);
    proof {
        assert(v@ =~= run_word());
    }
    v
}

/// Keeps the container's standard input open.
pub open spec fn interactive_flag() -> Seq<u8> {
    seq![45u8, 45u8, 105u8, 110u8, 116u8, 101u8, 114u8, 97u8, 99u8, 116u8, 105u8, 118u8, 101u8]
}

fn interactive_flag_bytes() -> (r: Vec<u8>)
    ensures
        r@ == interactive_flag(),
{
    let mut v: Vec<u8> = Vec::new();
    v.push(45);
    v.push(45);
    v.push(105);
    v.push(110);
    v.push(116);
    v.push(101);
    v.push(114);
    v.push(97);
    v.push(99);
    v.push(116);
    v.push(105);
    v.push(118);
    v.push(101);
    proof {
        assert(v@ =~= interactive_flag());
    }
    v
}

/// Removes the container when it exits.
pub open spec fn rm_flag() -> Seq<u8> {
    seq![45u8, 45u8, 114u8, 109u8]
}

fn rm_flag_bytes() -> (r: Vec<u8>)
    ensures
        r@ == rm_flag(),
{
    let mut v: Vec<u8> = Vec::new();
    v.push(45);
    v.push(45);
    v.push(114);
    v.push(109);
    proof {
        assert(v@ =~= rm_flag());
    }
    v
}

/// Requests execute mode inside the container.
pub open spec fn env_flag() -> Seq<u8> {
    seq![45u8, 45u8, 101u8, 110u8, 118u8, 61u8, 95u8, 95u8, 82u8, 85u8, 78u8, 95u8, 95u8, 61u8, 49u8]
}

fn env_flag_bytes() -> (r: Vec<u8>)
    ensures
        r@ == env_flag(),
{
    let mut v: Vec<u8> = Vec::new();
    v.push(45);
    v.push(45);
    v.push(101);
    v.push(110);
    v.push(118);
    v.push(61);
    v.push(95);
    v.push(95);
    v.push(82);
    v.push(85);
    v.push(78);
    v.push(95);
    v.push(95);
    v.push(61);
    v.push(49);
    proof {
        assert(v@ =~= env_flag());
    }
    v
}

/// The execute-mode environment variable's name.
pub open spec fn run_env_name() -> Seq<u8> {
    seq![95u8, 95u8, 82u8, 85u8, 78u8, 95u8, 95u8]
}

fn run_env_name_bytes() -> (r: Vec<u8>)
    ensures
        r@ == run_env_name(),
{
    let mut v: Vec<u8> = Vec::new();
    v.push(95);
    v.push(95);
    v.push(82);
    v.push(85);
    v.push(78);
    v.push(95);
    v.push(95);
    proof {
        assert(v@ =~= run_env_name());
    }
    v
}

/// The execute-mode environment variable's value.
pub open spec fn run_env_value() -> Seq<u8> {
    seq![49u8]
}

fn run_env_value_bytes() -> (r: Vec<u8>)
    ensures
        r@ == run_env_value(),
{
    let mut v: Vec<u8> = Vec::new();
    v.push(49);
    proof {
        assert(v@ =~= run_env_value());
    }
    v
}

/// The fixed in-container directory the script is mounted under.
pub open spec fn inner_dir() -> Seq<u8> {
    seq![47u8, 115u8, 114u8, 99u8, 47u8]
}

fn inner_dir_bytes() -> (r: Vec<u8>)
    ensures
        r@ == inner_dir(),
{
    let mut v: Vec<u8> = Vec::new();
    v.push(47);
    v.push(115);
    v.push(114);
    v.push(99);
    v.push(47);
    proof {
        assert(v@ =~= inner_dir());
    }
    v
}

/// Leading part of the bind-mount flag, up to the source path.
pub open spec fn mount_source_prefix() -> Seq<u8> {
    seq![45u8, 45u8, 109u8, 111u8, 117u8, 110u8, 116u8, 61u8, 116u8, 121u8, 112u8, 101u8, 61u8, 98u8, 105u8, 110u8, 100u8, 44u8, 115u8, 111u8, 117u8, 114u8, 99u8, 101u8, 61u8]
}

fn mount_source_prefix_bytes() -> (r: Vec<u8>)
    ensures
        r@ == mount_source_prefix(),
{
    let mut v: Vec<u8> = Vec::new();
    v.push(45);
    v.push(45);
    v.push(109);
    v.push(111);
    v.push(117);
    v.push(110);
    v.push(116);
    v.push(61);
    v.push(116);
    v.push(121);
    v.push(112);
    v.push(101);
    v.push(61);
    v.push(98);
    v.push(105);
    v.push(110);
    v.push(100);
    v.push(44);
    v.push(115);
    v.push(111);
    v.push(117);
    v.push(114);
    v.push(99);
    v.push(101);
    v.push(61);
    proof {
        assert(v@ =~= mount_source_prefix());
    }
    v
}

/// Middle part of the bind-mount flag, between source and target.
pub open spec fn mount_target_infix() -> Seq<u8> {
    seq![44u8, 116u8, 97u8, 114u8, 103u8, 101u8, 116u8, 61u8]
}

fn mount_target_infix_bytes() -> (r: Vec<u8>)
    ensures
        r@ == mount_target_infix(),
{
    let mut v: Vec<u8> = Vec::new();
    v.push(44);
    v.push(116);
    v.push(97);
    v.push(114);
    v.push(103);
    v.push(101);
    v.push(116);
    v.push(61);
    proof {
        assert(v@ =~= mount_target_infix());
    }
    v
}

/// Trailing part of the bind-mount flag: the mount is read-only.
pub open spec fn mount_readonly_suffix() -> Seq<u8> {
    seq![44u8, 114u8, 101u8, 97u8, 100u8, 111u8, 110u8, 108u8, 121u8, 61u8, 116u8, 114u8, 117u8, 101u8]
}

fn mount_readonly_suffix_bytes() -> (r: Vec<u8>)
    ensures
        r@ == mount_readonly_suffix(),
{
    let mut v: Vec<u8> = Vec::new();
    v.push(44);
    v.push(114);
    v.push(101);
    v.push(97);
    v.push(100);
    v.push(111);
    v.push(110);
    v.push(108);
    v.push(121);
    v.push(61);
    v.push(116);
    v.push(114);
    v.push(117);
    v.push(101);
    proof {
        assert(v@ =~= mount_readonly_suffix());
    }
    v
}

/// A script path with no usable file-name component: empty, ending in a
/// separator, or a bare parent-directory reference.
pub open spec fn no_file_name(script: Seq<u8>) -> bool {
    paths::file_name(script).len() == 0 || paths::file_name(script) == seq![46u8, 46u8]
}

/// The fixed in-container path of the mounted script.
pub open spec fn inner_path(script: Seq<u8>) -> Seq<u8> {
    inner_dir() + paths::file_name(script)
}

/// The read-only bind-mount flag for a resolved script path.
pub open spec fn mount_flag(abs: Seq<u8>, script: Seq<u8>) -> Seq<u8> {
    mount_source_prefix() + abs + mount_target_infix() + inner_path(script)
        + mount_readonly_suffix()
}

/// The full container-isolated invocation, program word first:
/// `docker run --interactive --rm --env=__RUN__=1 <mount flag> <image>
/// <in-container path>`.  `abs` must be the script path as the
/// application resolved it to an absolute path.
pub fn docker_argv(script: &Vec<u8>, abs: &Vec<u8>, image: &Vec<u8>) -> (r: Result<
    Vec<Vec<u8>>,
    LaunchError,
>)
    ensures
        match r {
            Ok(args) => !no_file_name(script@) && args@.len() == 8 && args@[0]@ == docker_word()
                && args@[1]@ == run_word() && args@[2]@ == interactive_flag() && args@[3]@
                == rm_flag() && args@[4]@ == env_flag() && args@[5]@ == mount_flag(abs@, script@)
                && args@[6]@ == image@ && args@[7]@ == inner_path(script@),
            Err(e) => e == LaunchError::NoFileName && no_file_name(script@),
        },
{
    let name = paths::file_name_bytes(script);
    if name.len() == 0 {
        return Err(LaunchError::NoFileName);
    }
    if name.len() == 2 && name[0] == 46 && name[1] == 46 {
        proof {
            assert(paths::file_name(script@) =~= seq![46u8, 46u8]);
        }
        return Err(LaunchError::NoFileName);
    }
    proof {
        assert(paths::file_name(script@) != seq![46u8, 46u8]) by {
            if paths::file_name(script@) == seq![46u8, 46u8] {
                assert(name@.len() == 2 && name@[0] == 46 && name@[1] == 46);
            }
        }
    }
    let mut inner = inner_dir_bytes();
    paths::append_bytes(&mut inner, &name);
    let mut mount = mount_source_prefix_bytes();
    paths::append_bytes(&mut mount, abs);
    let infix = mount_target_infix_bytes();
    paths::append_bytes(&mut mount, &infix);
    paths::append_bytes(&mut mount, &inner);
    let suffix = mount_readonly_suffix_bytes();
    paths::append_bytes(&mut mount, &suffix);
    proof {
        assert(mount@ =~= mount_flag(abs@, script@));
    }
    let mut args: Vec<Vec<u8>> = Vec::new();
    args.push(docker_word_bytes());
    args.push(run_word_bytes());
    args.push(interactive_flag_bytes());
    args.push(rm_flag_bytes());
    args.push(env_flag_bytes());
    args.push(mount);
    args.push(paths::copy_bytes(image));
    args.push(inner);
    Ok(args)
}

/// The host-direct invocation's argument list: the script path alone,
/// handed to a re-invocation of the orchestrator's own executable, which
/// the application locates.  The execute-mode environment variable (name
/// `__RUN__`, value `1`) must be set on the child.
pub fn host_argv(script: &Vec<u8>) -> (r: Vec<Vec<u8>>)
    ensures
        r@.len() == 1,
        r@[0]@ == script@,
{
    let mut args: Vec<Vec<u8>> = Vec::new();
    args.push(paths::copy_bytes(script));
    args
}

/// Execute-mode environment variable, as a (name, value) pair of byte
/// strings.
pub fn run_env_pair() -> (r: (Vec<u8>, Vec<u8>))
    ensures
        r.0@ == run_env_name(),
        r.1@ == run_env_value(),
{
    (run_env_name_bytes(), run_env_value_bytes())
}

} // verus!
