//! Where a recording's model and Whisper command are looked for: expanding
//! `~`, the checks on the configured values, and the places searched for a
//! Whisper build or model when the configured one is not found.
use vstd::prelude::*;

use crate::text::{
    chars_of, contains, extend_chars, extend_str, starts_with, string_lit, string_of, trim,
    trim_chars,
};

verus! {

// ---------------------------------------------------------------------------
// Joining paths
// ---------------------------------------------------------------------------
/// `PathBuf::join` on Unix: an absolute `rel` replaces `dir`; otherwise a
/// separator is put between them unless `dir` is empty or already ends in one.
pub open spec fn join_path(dir: Seq<char>, rel: Seq<char>) -> Seq<char> {
    if rel.len() > 0 && rel[0] == '/' {
        rel
    } else if dir.len() == 0 {
        rel
    } else if dir.last() == '/' {
        dir + rel
    } else {
        dir + "/"@ + rel
    }
}

/// Joins `rel` to `dir` as `PathBuf::join` does on Unix.
pub fn join_path_chars(dir: &[char], rel: &[char]) -> (out: Vec<char>)
    ensures
        out@ == join_path(dir@, rel@),
{
    if rel.len() > 0 && rel[0] == '/' {
        return crate::text::slice_chars(rel, 0, rel.len());
    }
    let mut out = crate::text::slice_chars(dir, 0, dir.len());
    assert(dir@.subrange(0, dir@.len() as int) =~= dir@);
    assert(rel@.subrange(0, rel@.len() as int) =~= rel@);
    if dir.len() > 0 && dir[dir.len() - 1] != '/' {
        out.push('/');
    }
    extend_chars(&mut out, rel);
    proof {
        reveal_strlit("/");
        if dir@.len() > 0 && dir@.last() != '/' {
            assert(out@ =~= dir@ + "/"@ + rel@);
        } else {
            assert(out@ =~= dir@ + rel@);
        }
    }
    out
}

// ---------------------------------------------------------------------------
// Expanding `~`
// ---------------------------------------------------------------------------
/// A configured path with a leading `~/` or a lone `~` standing for the home
/// directory; an error for a blank path, or for `~` when the home directory
/// is unknown.
pub open spec fn expanded_path(input: Seq<char>, home: Option<Seq<char>>) -> Result<Seq<char>, Seq<char>> {
    if trim(input).len() == 0 {
        Err("path must not be empty"@)
    } else if starts_with(input, "~/"@) || input == "~"@ {
        match home {
            None => Err("unable to determine home directory"@),
            Some(h) => if input == "~"@ {
                Ok(h)
            } else {
                Ok(join_path(h, input.skip(2)))
            },
        }
    } else {
        Ok(input)
    }
}

/// The view of an optional string slice.
pub open spec fn opt_text(o: Option<&str>) -> Option<Seq<char>> {
    match o {
        Some(s) => Some(s@),
        None => None,
    }
}

/// The view of a text result.
pub open spec fn text_result(r: Result<String, String>) -> Result<Seq<char>, Seq<char>> {
    match r {
        Ok(s) => Ok(s@),
        Err(e) => Err(e@),
    }
}

/// Expands a leading `~/` or a lone `~` of a configured path to the home
/// directory; the path is then looked up on disk by its caller.
pub fn expand_user_path(input: &str, home: Option<&str>) -> (out: Result<String, String>)
    ensures
        text_result(out) == expanded_path(input@, opt_text(home)),
{
    let cs = chars_of(input);
    let t = trim_chars(&cs);
    if t.len() == 0 {
        return Err(string_lit("path must not be empty"));
    }
    proof {
        reveal_strlit("~/");
        reveal_strlit("~");
    }
    let tilde_slash = cs.len() >= 2 && cs[0] == '~' && cs[1] == '/';
    let tilde = cs.len() == 1 && cs[0] == '~';
    assert(tilde_slash == starts_with(input@, "~/"@)) by {
        if tilde_slash {
            assert(input@.subrange(0, 2) =~= "~/"@);
        }
        if starts_with(input@, "~/"@) {
            assert(input@.subrange(0, 2)[0] == input@[0]);
            assert(input@.subrange(0, 2)[1] == input@[1]);
        }
    }
    assert(tilde == (input@ == "~"@)) by {
        if tilde {
            assert(input@ =~= "~"@);
        }
    }
    if tilde_slash || tilde {
        match home {
            None => Err(string_lit("unable to determine home directory")),
            Some(h) => {
                if tilde {
                    Ok(string_lit(h))
                } else {
                    let hc = chars_of(h);
                    let rest = crate::text::slice_chars(&cs, 2, cs.len());
                    assert(rest@ =~= input@.skip(2));
                    let joined = join_path_chars(&hc, &rest);
                    Ok(string_of(&joined))
                }
            },
        }
    } else {
        Ok(string_lit(input))
    }
}

// ---------------------------------------------------------------------------
// The configured Whisper model and command
// ---------------------------------------------------------------------------
/// The Whisper model path, trimmed; an error when it is blank.
pub fn check_whisper_model_path(path: &str) -> (out: Result<String, String>)
    ensures
        text_result(out) == if trim(path@).len() == 0 {
            Err("Whisper model path must not be empty"@)
        } else {
            Ok(trim(path@))
        },
{
    let t = crate::text::trim_str(path);
    if t.as_str().is_empty() {
        Err(string_lit("Whisper model path must not be empty"))
    } else {
        Ok(t)
    }
}

/// Whether the Whisper command is given as a path, holding a `/` or starting
/// with `~`, rather than as a name to look up.
pub open spec fn command_is_path(command: Seq<char>) -> bool {
    contains(command, "/"@) || starts_with(command, "~"@)
}

/// Checks the Whisper command: an error when it is blank; otherwise whether it
/// is given as a path.
pub fn check_whisper_command(command: &str) -> (out: Result<bool, String>)
    ensures
        match out {
            Ok(is_path) => trim(command@).len() > 0 && is_path == command_is_path(command@),
            Err(e) => trim(command@).len() == 0 && e@ == "Whisper command must not be empty"@,
        },
{
    let cs = chars_of(command);
    let t = trim_chars(&cs);
    if t.len() == 0 {
        return Err(string_lit("Whisper command must not be empty"));
    }
    let slash = crate::text::contains_lit(&cs, "/");
    let tilde = cs.len() > 0 && cs[0] == '~';
    proof {
        reveal_strlit("~");
        if tilde {
            assert(command@.subrange(0, 1) =~= "~"@);
        }
        if starts_with(command@, "~"@) {
            assert(command@[0] == command@.subrange(0, 1)[0]);
        }
    }
    Ok(slash || tilde)
}

/// The message when the Whisper command is found nowhere.
pub fn command_not_found_message(command: &str) -> (out: String)
    ensures
        out@ == "Whisper command '"@ + command@ + "' was not found. Set an absolute path in settings."@,
{
    let mut cs = chars_of("Whisper command '");
    extend_str(&mut cs, command);
    extend_str(&mut cs, "' was not found. Set an absolute path in settings.");
    string_of(&cs)
}

// ---------------------------------------------------------------------------
// Where a Whisper build or model is looked for
// ---------------------------------------------------------------------------
/// The names as given, with `extra` added unless it is already among them.
pub open spec fn with_name(names: Seq<Seq<char>>, extra: Seq<char>) -> Seq<Seq<char>> {
    if names.contains(extra) {
        names
    } else {
        names.push(extra)
    }
}

/// The names under which a Whisper build is looked for: the configured one,
/// trimmed, where it is not blank, then `whisper-cli` and `main`.
pub open spec fn command_names(command: Seq<char>) -> Seq<Seq<char>> {
    let given = if trim(command).len() > 0 {
        seq![trim(command)]
    } else {
        Seq::empty()
    };
    with_name(with_name(given, "whisper-cli"@), "main"@)
}

/// The names under which a Whisper model is looked for: the requested file
/// name where it is not blank, then `ggml-base.bin`.
pub open spec fn model_names(name: Option<Seq<char>>) -> Seq<Seq<char>> {
    let given = match name {
        Some(n) => if trim(n).len() > 0 {
            seq![n]
        } else {
            Seq::empty()
        },
        None => Seq::empty(),
    };
    with_name(given, "ggml-base.bin"@)
}

/// The views of a list of strings.
pub open spec fn texts(v: Seq<String>) -> Seq<Seq<char>> {
    v.map_values(|s: String| s@)
}

fn push_text(v: &mut Vec<String>, s: String)
    ensures
        texts(final(v)@) == texts(old(v)@).push(s@),
{
    let ghost before = texts(v@);
    v.push(s);
    assert(texts(v@) =~= before.push(s@));
}

fn add_name(names: &mut Vec<String>, extra: &str)
    ensures
        texts(final(names)@) == with_name(texts(old(names)@), extra@),
{
    let wanted = string_lit(extra);
    let ghost t = texts(names@);
    let mut i: usize = 0;
    while i < names.len()
        invariant
            i <= names@.len(),
            t == texts(names@),
            wanted@ == extra@,
            forall|k: int| 0 <= k < i ==> t[k] != extra@,
        decreases names.len() - i,
    {
        if names[i] == wanted {
            assert(t[i as int] == extra@);
            assert(t.contains(extra@));
            return;
        }
        i += 1;
    }
    assert(!t.contains(extra@));
    push_text(names, wanted);
}

/// The names under which a Whisper build is looked for.
pub fn whisper_command_names(command: &str) -> (out: Vec<String>)
    ensures
        texts(out@) == command_names(command@),
{
    let mut names: Vec<String> = Vec::new();
    let t = crate::text::trim_str(command);
    if !t.as_str().is_empty() {
        push_text(&mut names, t);
    }
    assert(texts(names@) =~= if trim(command@).len() > 0 {
        seq![trim(command@)]
    } else {
        Seq::empty()
    });
    add_name(&mut names, "whisper-cli");
    add_name(&mut names, "main");
    names
}

/// The names under which a Whisper model is looked for.
pub fn whisper_model_names(model_name: Option<&str>) -> (out: Vec<String>)
    ensures
        texts(out@) == model_names(opt_text(model_name)),
{
    let mut names: Vec<String> = Vec::new();
    if let Some(n) = model_name {
        let cs = chars_of(n);
        let t = trim_chars(&cs);
        if t.len() > 0 {
            push_text(&mut names, string_lit(n));
        }
    }
    assert(texts(names@) =~= match opt_text(model_name) {
        Some(n) => if trim(n).len() > 0 {
            seq![n]
        } else {
            Seq::empty()
        },
        None => Seq::empty(),
    });
    add_name(&mut names, "ggml-base.bin");
    names
}

/// For each name in turn, each directory joined with it.
pub open spec fn name_major(names: Seq<Seq<char>>, dirs: Seq<Seq<char>>) -> Seq<Seq<char>>
    decreases names.len(),
{
    if names.len() == 0 {
        Seq::empty()
    } else {
        name_major(names.drop_last(), dirs) + dirs.map_values(|d: Seq<char>| join_path(d, names.last()))
    }
}

/// For each directory in turn, each name joined to it.
pub open spec fn dir_major(dirs: Seq<Seq<char>>, names: Seq<Seq<char>>) -> Seq<Seq<char>>
    decreases dirs.len(),
{
    if dirs.len() == 0 {
        Seq::empty()
    } else {
        dir_major(dirs.drop_last(), names) + names.map_values(|n: Seq<char>| join_path(dirs.last(), n))
    }
}

/// The directories under `base` named by `subs`.
pub open spec fn subdirs(base: Option<Seq<char>>, subs: Seq<Seq<char>>) -> Seq<Seq<char>> {
    match base {
        Some(b) => subs.map_values(|s: Seq<char>| join_path(b, s)),
        None => Seq::empty(),
    }
}

/// Where a Whisper build is looked for, in order: the usual binary
/// directories, the build directory under the working directory, the build
/// directories under the home directory, and the build directory under each
/// directory that holds the running program.
pub open spec fn command_candidates(
    names: Seq<Seq<char>>,
    cwd: Option<Seq<char>>,
    home: Option<Seq<char>>,
    exe_ancestors: Seq<Seq<char>>,
) -> Seq<Seq<char>> {
    name_major(names, seq!["/opt/homebrew/bin"@, "/usr/local/bin"@, "/usr/bin"@])
        + name_major(names, subdirs(cwd, seq!["tools/whisper.cpp/build/bin"@]))
        + name_major(
            names,
            subdirs(
                home,
                seq![
                    "whisper.cpp/build/bin"@,
                    "MemoBreeze/tools/whisper.cpp/build/bin"@,
                    "Desktop/MemoBreeze/tools/whisper.cpp/build/bin"@,
                ],
            ),
        ) + dir_major(
            exe_ancestors.map_values(|a: Seq<char>| join_path(a, "tools/whisper.cpp/build/bin"@)),
            names,
        )
}

/// Where a Whisper model is looked for, in order: the models directory under
/// the working directory, then those under the home directory.
pub open spec fn model_candidates(names: Seq<Seq<char>>, cwd: Option<Seq<char>>, home: Option<Seq<char>>) -> Seq<Seq<char>> {
    name_major(names, subdirs(cwd, seq!["tools/whisper.cpp/models"@]))
        + name_major(
            names,
            subdirs(
                home,
                seq![
                    "whisper.cpp/models"@,
                    "MemoBreeze/tools/whisper.cpp/models"@,
                    "Desktop/MemoBreeze/tools/whisper.cpp/models"@,
                ],
            ),
        )
}

fn join_texts(dir: &str, rel: &str) -> (out: String)
    ensures
        out@ == join_path(dir@, rel@),
{
    let d = chars_of(dir);
    let r = chars_of(rel);
    let j = join_path_chars(&d, &r);
    string_of(&j)
}

fn push_name_major(out: &mut Vec<String>, names: &Vec<String>, dirs: &Vec<String>)
    ensures
        texts(final(out)@) == texts(old(out)@) + name_major(texts(names@), texts(dirs@)),
{
    let ghost start = texts(out@);
    let ghost nv = texts(names@);
    let ghost dv = texts(dirs@);
    let mut i: usize = 0;
    while i < names.len()
        invariant
            i <= names@.len(),
            nv == texts(names@),
            dv == texts(dirs@),
            texts(out@) == start + name_major(nv.take(i as int), dv),
        decreases names.len() - i,
    {
        let ghost mid = texts(out@);
        let mut j: usize = 0;
        while j < dirs.len()
            invariant
                i < names@.len(),
                j <= dirs@.len(),
                nv == texts(names@),
                dv == texts(dirs@),
                texts(out@) == mid + dv.take(j as int).map_values(|d: Seq<char>| join_path(d, nv[i as int])),
            decreases dirs.len() - j,
        {
            let p = join_texts(dirs[j].as_str(), names[i].as_str());
            push_text(out, p);
            assert(dv.take(j + 1).map_values(|d: Seq<char>| join_path(d, nv[i as int])) =~= dv.take(
                j as int,
            ).map_values(|d: Seq<char>| join_path(d, nv[i as int])).push(join_path(dv[j as int], nv[i as int])));
            j += 1;
        }
        proof {
            assert(dv.take(dirs@.len() as int) =~= dv);
            assert(nv.take(i + 1).drop_last() =~= nv.take(i as int));
            assert(nv.take(i + 1).last() == nv[i as int]);
        }
        i += 1;
    }
    assert(nv.take(names@.len() as int) =~= nv);
}

fn push_dir_major(out: &mut Vec<String>, dirs: &Vec<String>, names: &Vec<String>)
    ensures
        texts(final(out)@) == texts(old(out)@) + dir_major(texts(dirs@), texts(names@)),
{
    let ghost start = texts(out@);
    let ghost nv = texts(names@);
    let ghost dv = texts(dirs@);
    let mut i: usize = 0;
    while i < dirs.len()
        invariant
            i <= dirs@.len(),
            nv == texts(names@),
            dv == texts(dirs@),
            texts(out@) == start + dir_major(dv.take(i as int), nv),
        decreases dirs.len() - i,
    {
        let ghost mid = texts(out@);
        let mut j: usize = 0;
        while j < names.len()
            invariant
                i < dirs@.len(),
                j <= names@.len(),
                nv == texts(names@),
                dv == texts(dirs@),
                texts(out@) == mid + nv.take(j as int).map_values(|n: Seq<char>| join_path(dv[i as int], n)),
            decreases names.len() - j,
        {
            let p = join_texts(dirs[i].as_str(), names[j].as_str());
            push_text(out, p);
            assert(nv.take(j + 1).map_values(|n: Seq<char>| join_path(dv[i as int], n)) =~= nv.take(
                j as int,
            ).map_values(|n: Seq<char>| join_path(dv[i as int], n)).push(join_path(dv[i as int], nv[j as int])));
            j += 1;
        }
        proof {
            assert(nv.take(names@.len() as int) =~= nv);
            assert(dv.take(i + 1).drop_last() =~= dv.take(i as int));
            assert(dv.take(i + 1).last() == dv[i as int]);
        }
        i += 1;
    }
    assert(dv.take(dirs@.len() as int) =~= dv);
}

fn subdir_list(base: Option<&str>, subs: &Vec<String>) -> (out: Vec<String>)
    ensures
        texts(out@) == subdirs(opt_text(base), texts(subs@)),
{
    let mut out: Vec<String> = Vec::new();
    if let Some(b) = base {
        let ghost sv = texts(subs@);
        let mut i: usize = 0;
        while i < subs.len()
            invariant
                i <= subs@.len(),
                sv == texts(subs@),
                texts(out@) == sv.take(i as int).map_values(|s: Seq<char>| join_path(b@, s)),
            decreases subs.len() - i,
        {
            let p = join_texts(b, subs[i].as_str());
            push_text(&mut out, p);
            assert(sv.take(i + 1).map_values(|s: Seq<char>| join_path(b@, s)) =~= sv.take(
                i as int,
            ).map_values(|s: Seq<char>| join_path(b@, s)).push(join_path(b@, sv[i as int])));
            i += 1;
        }
        assert(sv.take(subs@.len() as int) =~= sv);
    } else {
        assert(texts(out@) =~= Seq::<Seq<char>>::empty());
    }
    out
}

fn literal_list(items: &[&str]) -> (out: Vec<String>)
    ensures
        texts(out@) == items@.map_values(|s: &str| s@),
{
    let mut out: Vec<String> = Vec::new();
    let mut i: usize = 0;
    while i < items.len()
        invariant
            i <= items@.len(),
            texts(out@) == items@.take(i as int).map_values(|s: &str| s@),
        decreases items.len() - i,
    {
        push_text(&mut out, string_lit(items[i]));
        assert(items@.take(i + 1).map_values(|s: &str| s@) =~= items@.take(i as int).map_values(
            |s: &str| s@,
        ).push(items@[i as int]@));
        i += 1;
    }
    assert(items@.take(items@.len() as int) =~= items@);
    out
}

/// The places where a Whisper build is looked for, for the given names, the
/// working directory and home directory where they are known, and the
/// directories that hold the running program, nearest first.
pub fn whisper_command_candidates(
    names: &Vec<String>,
    cwd: Option<&str>,
    home: Option<&str>,
    exe_ancestors: &Vec<String>,
) -> (out: Vec<String>)
    ensures
        texts(out@) == command_candidates(texts(names@), opt_text(cwd), opt_text(home), texts(exe_ancestors@)),
{
    let mut out: Vec<String> = Vec::new();
    let system = literal_list(&["/opt/homebrew/bin", "/usr/local/bin", "/usr/bin"]);
    proof {
        assert(texts(system@) =~= seq!["/opt/homebrew/bin"@, "/usr/local/bin"@, "/usr/bin"@]);
    }
    push_name_major(&mut out, names, &system);
    let cwd_subs = literal_list(&["tools/whisper.cpp/build/bin"]);
    let cwd_dirs = subdir_list(cwd, &cwd_subs);
    push_name_major(&mut out, names, &cwd_dirs);
    let home_subs = literal_list(
        &[
            "whisper.cpp/build/bin",
            "MemoBreeze/tools/whisper.cpp/build/bin",
            "Desktop/MemoBreeze/tools/whisper.cpp/build/bin",
        ],
    );
    let home_dirs = subdir_list(home, &home_subs);
    push_name_major(&mut out, names, &home_dirs);
    let mut exe_dirs: Vec<String> = Vec::new();
    let ghost av = texts(exe_ancestors@);
    let mut i: usize = 0;
    while i < exe_ancestors.len()
        invariant
            i <= exe_ancestors@.len(),
            av == texts(exe_ancestors@),
            texts(exe_dirs@) == av.take(i as int).map_values(
                |a: Seq<char>| join_path(a, "tools/whisper.cpp/build/bin"@),
            ),
        decreases exe_ancestors.len() - i,
    {
        let p = join_texts(exe_ancestors[i].as_str(), "tools/whisper.cpp/build/bin");
        push_text(&mut exe_dirs, p);
        assert(av.take(i + 1).map_values(|a: Seq<char>| join_path(a, "tools/whisper.cpp/build/bin"@))
            =~= av.take(i as int).map_values(|a: Seq<char>| join_path(a, "tools/whisper.cpp/build/bin"@)).push(
            join_path(av[i as int], "tools/whisper.cpp/build/bin"@),
        ));
        i += 1;
    }
    assert(av.take(exe_ancestors@.len() as int) =~= av);
    push_dir_major(&mut out, &exe_dirs, names);
    proof {
        assert(texts(cwd_subs@) =~= seq!["tools/whisper.cpp/build/bin"@]);
        assert(texts(home_subs@) =~= seq![
            "whisper.cpp/build/bin"@,
            "MemoBreeze/tools/whisper.cpp/build/bin"@,
            "Desktop/MemoBreeze/tools/whisper.cpp/build/bin"@,
        ]);
    }
    out
}

/// The places where a Whisper model is looked for, for the given names and
/// the working and home directories where they are known.
pub fn whisper_model_candidates(names: &Vec<String>, cwd: Option<&str>, home: Option<&str>) -> (out: Vec<String>)
    ensures
        texts(out@) == model_candidates(texts(names@), opt_text(cwd), opt_text(home)),
{
    let mut out: Vec<String> = Vec::new();
    let cwd_subs = literal_list(&["tools/whisper.cpp/models"]);
    let cwd_dirs = subdir_list(cwd, &cwd_subs);
    push_name_major(&mut out, names, &cwd_dirs);
    let home_subs = literal_list(
        &[
            "whisper.cpp/models",
            "MemoBreeze/tools/whisper.cpp/models",
            "Desktop/MemoBreeze/tools/whisper.cpp/models",
        ],
    );
    let home_dirs = subdir_list(home, &home_subs);
    push_name_major(&mut out, names, &home_dirs);
    proof {
        assert(texts(cwd_subs@) =~= seq!["tools/whisper.cpp/models"@]);
        assert(texts(home_subs@) =~= seq![
            "whisper.cpp/models"@,
            "MemoBreeze/tools/whisper.cpp/models"@,
            "Desktop/MemoBreeze/tools/whisper.cpp/models"@,
        ]);
        assert(texts(out@) =~= model_candidates(texts(names@), opt_text(cwd), opt_text(home)));
    }
    out
}

} // verus!
