use memobreeze::paths::{
    check_whisper_command, check_whisper_model_path, command_not_found_message, expand_user_path,
    join_path_chars, whisper_command_candidates, whisper_command_names, whisper_model_candidates,
    whisper_model_names,
};

fn chars(t: &str) -> Vec<char> {
    t.chars().collect()
}

fn s(v: &[&str]) -> Vec<String> {
    v.iter().map(|x| x.to_string()).collect()
}

#[test]
fn joining_paths_follows_pathbuf() {
    let j = |a: &str, b: &str| join_path_chars(&chars(a), &chars(b)).into_iter().collect::<String>();
    assert_eq!(j("/usr", "bin"), "/usr/bin");
    assert_eq!(j("/", "bin"), "/bin");
    assert_eq!(j("", "bin"), "bin");
    assert_eq!(j("/usr", "/etc"), "/etc");
}

#[test]
fn tilde_expands_to_the_home_directory() {
    assert_eq!(expand_user_path("~/models/a.bin", Some("/home/u")).unwrap(), "/home/u/models/a.bin");
    assert_eq!(expand_user_path("~", Some("/home/u")).unwrap(), "/home/u");
    assert_eq!(expand_user_path("/abs/p", None).unwrap(), "/abs/p");
    assert_eq!(expand_user_path("~user/p", Some("/home/u")).unwrap(), "~user/p");
    assert_eq!(expand_user_path("  ", Some("/h")).unwrap_err(), "path must not be empty");
    assert_eq!(expand_user_path("~/x", None).unwrap_err(), "unable to determine home directory");
}

#[test]
fn whisper_settings_are_checked() {
    assert_eq!(check_whisper_model_path("  /m.bin ").unwrap(), "/m.bin");
    assert_eq!(check_whisper_model_path(" ").unwrap_err(), "Whisper model path must not be empty");
    assert_eq!(check_whisper_command("whisper-cli"), Ok(false));
    assert_eq!(check_whisper_command("./bin/whisper"), Ok(true));
    assert_eq!(check_whisper_command("~whisper"), Ok(true));
    assert_eq!(check_whisper_command("  ").unwrap_err(), "Whisper command must not be empty");
    assert_eq!(
        command_not_found_message("wc"),
        "Whisper command 'wc' was not found. Set an absolute path in settings."
    );
}

#[test]
fn whisper_names_add_the_defaults_once() {
    assert_eq!(whisper_command_names(" wc "), s(&["wc", "whisper-cli", "main"]));
    assert_eq!(whisper_command_names("main"), s(&["main", "whisper-cli"]));
    assert_eq!(whisper_command_names(""), s(&["whisper-cli", "main"]));
    assert_eq!(whisper_model_names(Some("ggml-base.bin")), s(&["ggml-base.bin"]));
    assert_eq!(whisper_model_names(Some("small.bin")), s(&["small.bin", "ggml-base.bin"]));
    assert_eq!(whisper_model_names(None), s(&["ggml-base.bin"]));
}

#[test]
fn command_candidates_come_in_order() {
    let names = s(&["wc"]);
    let out = whisper_command_candidates(&names, Some("/cwd"), Some("/h"), &s(&["/app/bin/x", "/app/bin", "/"]));
    assert_eq!(
        out,
        s(&[
            "/opt/homebrew/bin/wc",
            "/usr/local/bin/wc",
            "/usr/bin/wc",
            "/cwd/tools/whisper.cpp/build/bin/wc",
            "/h/whisper.cpp/build/bin/wc",
            "/h/MemoBreeze/tools/whisper.cpp/build/bin/wc",
            "/h/Desktop/MemoBreeze/tools/whisper.cpp/build/bin/wc",
            "/app/bin/x/tools/whisper.cpp/build/bin/wc",
            "/app/bin/tools/whisper.cpp/build/bin/wc",
            "/tools/whisper.cpp/build/bin/wc",
        ])
    );
    let two = whisper_command_candidates(&s(&["a", "b"]), None, None, &s(&["/x"]));
    assert_eq!(
        two,
        s(&[
            "/opt/homebrew/bin/a",
            "/usr/local/bin/a",
            "/usr/bin/a",
            "/opt/homebrew/bin/b",
            "/usr/local/bin/b",
            "/usr/bin/b",
            "/x/tools/whisper.cpp/build/bin/a",
            "/x/tools/whisper.cpp/build/bin/b",
        ])
    );
}

#[test]
fn model_candidates_come_in_order() {
    let out = whisper_model_candidates(&s(&["m.bin"]), Some("/cwd"), Some("/h"));
    assert_eq!(
        out,
        s(&[
            "/cwd/tools/whisper.cpp/models/m.bin",
            "/h/whisper.cpp/models/m.bin",
            "/h/MemoBreeze/tools/whisper.cpp/models/m.bin",
            "/h/Desktop/MemoBreeze/tools/whisper.cpp/models/m.bin",
        ])
    );
    assert!(whisper_model_candidates(&s(&["m.bin"]), None, None).is_empty());
}
