use lowest_unique::kind::{detect_kind, interpreter_argv, CodeKind};
use lowest_unique::launch::{docker_argv, host_argv, run_env_pair, LaunchError};
use lowest_unique::paths::file_name_bytes;

#[test]
fn file_name_component() {
    assert_eq!(file_name_bytes(&b"bots/one.py".to_vec()), b"one.py".to_vec());
    assert_eq!(file_name_bytes(&b"one.py".to_vec()), b"one.py".to_vec());
    assert_eq!(file_name_bytes(&b"/a/b/c".to_vec()), b"c".to_vec());
    assert_eq!(file_name_bytes(&b"bots/".to_vec()), b"".to_vec());
    assert_eq!(file_name_bytes(&b"".to_vec()), b"".to_vec());
}

#[test]
fn python_scripts_are_detected() {
    assert_eq!(detect_kind(&b"bots/one.py".to_vec()), Some(CodeKind::Python));
    assert_eq!(detect_kind(&b"x.py".to_vec()), Some(CodeKind::Python));
    assert_eq!(detect_kind(&b"/abs/path/to/a.b.py".to_vec()), Some(CodeKind::Python));
}

#[test]
fn other_scripts_are_not_detected() {
    assert_eq!(detect_kind(&b"bots/one.sh".to_vec()), None);
    assert_eq!(detect_kind(&b"noext".to_vec()), None);
    assert_eq!(detect_kind(&b".py".to_vec()), None);
    assert_eq!(detect_kind(&b"dir.py/".to_vec()), None);
    assert_eq!(detect_kind(&b"".to_vec()), None);
}

#[test]
fn interpreter_invocation_for_python() {
    let argv = interpreter_argv(CodeKind::Python, &b"bots/one.py".to_vec());
    assert_eq!(argv, vec![b"python3".to_vec(), b"bots/one.py".to_vec()]);
}

#[test]
fn docker_invocation_is_exact() {
    let argv = docker_argv(
        &b"bots/one.py".to_vec(),
        &b"/home/u/bots/one.py".to_vec(),
        &b"sandbox-img".to_vec(),
    )
    .unwrap();
    assert_eq!(
        argv,
        vec![
            b"docker".to_vec(),
            b"run".to_vec(),
            b"--interactive".to_vec(),
            b"--rm".to_vec(),
            b"--env=__RUN__=1".to_vec(),
            b"--mount=type=bind,source=/home/u/bots/one.py,target=/src/one.py,readonly=true"
                .to_vec(),
            b"sandbox-img".to_vec(),
            b"/src/one.py".to_vec(),
        ]
    );
}

#[test]
fn docker_invocation_needs_a_file_name() {
    let img = b"img".to_vec();
    let abs = b"/x".to_vec();
    assert_eq!(docker_argv(&b"".to_vec(), &abs, &img), Err(LaunchError::NoFileName));
    assert_eq!(docker_argv(&b"bots/".to_vec(), &abs, &img), Err(LaunchError::NoFileName));
    assert_eq!(docker_argv(&b"a/..".to_vec(), &abs, &img), Err(LaunchError::NoFileName));
}

#[test]
fn host_invocation_passes_the_script() {
    assert_eq!(host_argv(&b"bots/one.py".to_vec()), vec![b"bots/one.py".to_vec()]);
    let (name, value) = run_env_pair();
    assert_eq!(name, b"__RUN__".to_vec());
    assert_eq!(value, b"1".to_vec());
}
