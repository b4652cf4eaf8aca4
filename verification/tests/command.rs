use kamino::command::{AppendCmdImpl, CommandArgs, MaskSecret};

fn strings(parts: &[&str]) -> Vec<String> {
    parts.iter().map(|part| String::from(*part)).collect()
}

#[test]
fn values_write_their_text() {
    let mut cmd = Vec::new();
    let mut args = CommandArgs::default();
    "str".append_cmd(&mut cmd, &mut args);
    String::from("string").append_cmd(&mut cmd, &mut args);
    'c'.append_cmd(&mut cmd, &mut args);
    0u8.append_cmd(&mut cmd, &mut args);
    255u8.append_cmd(&mut cmd, &mut args);
    65535u16.append_cmd(&mut cmd, &mut args);
    4294967295u32.append_cmd(&mut cmd, &mut args);
    18446744073709551615u64.append_cmd(&mut cmd, &mut args);
    10usize.append_cmd(&mut cmd, &mut args);
    (-128i8).append_cmd(&mut cmd, &mut args);
    (-32768i16).append_cmd(&mut cmd, &mut args);
    (-1i32).append_cmd(&mut cmd, &mut args);
    i64::MIN.append_cmd(&mut cmd, &mut args);
    i64::MAX.append_cmd(&mut cmd, &mut args);
    (-7isize).append_cmd(&mut cmd, &mut args);
    assert_eq!(
        cmd,
        strings(&[
            "str",
            "string",
            "c",
            "0",
            "255",
            "65535",
            "4294967295",
            "18446744073709551615",
            "10",
            "-128",
            "-32768",
            "-1",
            "-9223372036854775808",
            "9223372036854775807",
            "-7",
        ])
    );
    assert!(args.masq.is_empty());
    assert_eq!(args.retries, 1);
}

#[test]
fn options_vectors_and_pairs_are_flattened() {
    let mut cmd = Vec::new();
    let mut args = CommandArgs::default();
    Some("--flag").append_cmd(&mut cmd, &mut args);
    None::<&str>.append_cmd(&mut cmd, &mut args);
    vec![1u32, 2, 3].append_cmd(&mut cmd, &mut args);
    ["a", "b"][..].append_cmd(&mut cmd, &mut args);
    ("--name", String::from("value")).append_cmd(&mut cmd, &mut args);
    Some(("--count", 5i32)).append_cmd(&mut cmd, &mut args);
    Vec::<String>::new().append_cmd(&mut cmd, &mut args);
    (&&"deep").append_cmd(&mut cmd, &mut args);
    assert_eq!(
        cmd,
        strings(&["--flag", "1", "2", "3", "a", "b", "--name", "value", "--count", "5", "deep"])
    );
    assert!(args.masq.is_empty());
}

#[test]
fn what_is_masked_becomes_a_secret() {
    let mut cmd = strings(&["login"]);
    let mut args = CommandArgs::new(strings(&["old"]), 2, true, false, false);
    "--user".append_cmd(&mut cmd, &mut args);
    MaskSecret("admin").append_cmd(&mut cmd, &mut args);
    ("--password", MaskSecret(&String::from("hunter2"))).append_cmd(&mut cmd, &mut args);
    MaskSecret(&vec!["k1", "k2"]).append_cmd(&mut cmd, &mut args);
    MaskSecret(&None::<String>).append_cmd(&mut cmd, &mut args);
    MaskSecret(&12345u32).append_cmd(&mut cmd, &mut args);
    assert_eq!(
        cmd,
        strings(&["login", "--user", "admin", "--password", "hunter2", "k1", "k2", "12345"])
    );
    assert_eq!(args.masq, strings(&["old", "admin", "hunter2", "k1", "k2", "12345"]));
    assert_eq!(args.retries, 2);
    assert!(args.log_stdout);
    assert!(!args.log_stderr);
    assert!(!args.dry_run);
}

#[test]
fn a_mask_in_a_mask_adds_its_secrets_twice() {
    let mut cmd = Vec::new();
    let mut args = CommandArgs::default();
    let inner = MaskSecret("s");
    MaskSecret(&inner).append_cmd(&mut cmd, &mut args);
    assert_eq!(cmd, strings(&["s"]));
    assert_eq!(args.masq, strings(&["s", "s"]));
}
