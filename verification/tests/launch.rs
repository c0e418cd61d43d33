use lml::catalog::{Config, ErrorKind, Profile, Runtime, RuntimeConfig, Runtimes};
use lml::catalog_file::Catalog;
use lml::launch::{command, preview, quote, resolved_executable};
use lml::picker::{entry, find_profile};

const SOURCE: &str = "[runtimes.llama_cpp]\nexecutable = \"llama-server\"\n";

fn runtime(executable: &str, working_dir: Option<&str>) -> RuntimeConfig {
    RuntimeConfig {
        executable: executable.to_string(),
        model_dirs: Vec::new(),
        working_dir: working_dir.map(str::to_string),
    }
}

fn qwen() -> Profile {
    Profile {
        id: "llama-cpp-qwen".to_string(),
        name: "Qwen · 8K context".to_string(),
        runtime: Runtime::LlamaCpp,
        model: Some("~/models/Qwen.gguf".to_string()),
        args: vec!["--ctx-size".to_string(), "8192".to_string()],
    }
}

fn omlx() -> Profile {
    Profile {
        id: "omlx".to_string(),
        name: "oMLX — configured models".to_string(),
        runtime: Runtime::Omlx,
        model: None,
        args: Vec::new(),
    }
}

fn catalog() -> Catalog {
    let config = Config {
        runtimes: Runtimes {
            dwarfstar: Some(runtime("~/src/ds4/ds4-server", Some("~/src/ds4"))),
            llama_cpp: Some(runtime("llama-server", None)),
            omlx: Some(runtime("omlx", None)),
        },
        profiles: vec![qwen(), omlx()],
    };
    Catalog::load("/home/u/.config/lml/config.toml".to_string(), SOURCE, config).unwrap()
}

#[test]
fn quote_leaves_plain_words() {
    assert_eq!(quote("llama-server"), "llama-server");
    assert_eq!(quote("/a/b_c.d:e-f"), "/a/b_c.d:e-f");
}

#[test]
fn quote_wraps_other_words() {
    assert_eq!(quote(""), "''");
    assert_eq!(quote("My Models"), "'My Models'");
    assert_eq!(quote("it's"), "'it'\\''s'");
    assert_eq!(quote("$HOME"), "'$HOME'");
}

#[test]
fn llama_command_runs_in_the_catalog_directory() {
    let c = catalog();
    let cmd = command(&c, &qwen(), Some("/home/u"), false).unwrap();
    assert_eq!(cmd.program, "llama-server");
    assert_eq!(cmd.args, vec!["-m", "/home/u/models/Qwen.gguf", "--ctx-size", "8192"]);
    assert_eq!(cmd.current_dir.as_deref(), Some("/home/u/.config/lml"));
}

#[test]
fn existing_resolved_executable_is_preferred() {
    let c = catalog();
    assert_eq!(
        resolved_executable(&c, &qwen(), Some("/home/u")).unwrap(),
        "/home/u/.config/lml/llama-server"
    );
    let cmd = command(&c, &qwen(), Some("/home/u"), true).unwrap();
    assert_eq!(cmd.program, "/home/u/.config/lml/llama-server");
}

#[test]
fn dwarfstar_runs_in_its_working_directory() {
    let c = catalog();
    let mut p = qwen();
    p.runtime = Runtime::Dwarfstar;
    p.args = Vec::new();
    let cmd = command(&c, &p, Some("/home/u"), false).unwrap();
    assert_eq!(cmd.program, "/home/u/src/ds4/ds4-server");
    assert_eq!(cmd.current_dir.as_deref(), Some("/home/u/src/ds4"));
    assert_eq!(cmd.args, vec!["-m", "/home/u/models/Qwen.gguf"]);
}

#[test]
fn omlx_command_serves_without_directory() {
    let c = catalog();
    let cmd = command(&c, &omlx(), None, false).unwrap();
    assert_eq!(cmd.program, "omlx");
    assert_eq!(cmd.args, vec!["serve"]);
    assert_eq!(cmd.current_dir, None);
    assert_eq!(preview(&c, &omlx(), None, false).unwrap(), "omlx serve");
}

#[test]
fn preview_quotes_words_and_directory() {
    let c = catalog();
    let mut p = qwen();
    p.model = Some("/Volumes/My Models/q.gguf".to_string());
    assert_eq!(
        preview(&c, &p, Some("/home/u"), false).unwrap(),
        "cd /home/u/.config/lml && llama-server -m '/Volumes/My Models/q.gguf' --ctx-size 8192"
    );
}

#[test]
fn command_errors() {
    let mut c = catalog();
    let e = command(&c, &qwen(), None, false).unwrap_err();
    assert_eq!(e.kind, ErrorKind::InvalidInput);
    assert_eq!(e.message, "HOME is not set");
    let mut p = qwen();
    p.model = None;
    assert_eq!(command(&c, &p, Some("/h"), false).unwrap_err().message, "profile 'llama-cpp-qwen' requires a model path");
    c.config.runtimes.llama_cpp = None;
    assert_eq!(command(&c, &qwen(), Some("/h"), false).unwrap_err().message, "runtime not configured for profile 'llama-cpp-qwen'");
}

#[test]
fn picker_entry_describes_the_profile() {
    let c = catalog();
    let e = entry(&c, &qwen(), Some("/home/u"), false).unwrap();
    assert_eq!(e.id, "llama-cpp-qwen");
    assert_eq!(e.name, "Qwen · 8K context");
    assert_eq!(e.runtime, "llama.cpp");
    assert_eq!(e.model.as_deref(), Some("/home/u/models/Qwen.gguf"));
    assert_eq!(e.command, "cd /home/u/.config/lml && llama-server -m /home/u/models/Qwen.gguf --ctx-size 8192");
    let o = entry(&c, &omlx(), None, false).unwrap();
    assert_eq!(o.model, None);
    assert_eq!(o.runtime, "oMLX");
}

#[test]
fn find_profile_by_id() {
    let c = catalog();
    assert_eq!(find_profile(&c.config, "omlx").unwrap(), 1);
    assert_eq!(find_profile(&c.config, "llama-cpp-qwen").unwrap(), 0);
    let e = find_profile(&c.config, "nope").unwrap_err();
    assert_eq!(e.message, "unknown launch profile 'nope'");
}
