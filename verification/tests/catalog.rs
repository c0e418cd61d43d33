use lml::catalog::{invalid, Config, ErrorKind, Profile, Runtime, RuntimeConfig, Runtimes};

fn runtime(executable: &str) -> RuntimeConfig {
    RuntimeConfig { executable: executable.to_string(), model_dirs: Vec::new(), working_dir: None }
}

fn profile(id: &str, name: &str, runtime: Runtime, model: Option<&str>) -> Profile {
    Profile {
        id: id.to_string(),
        name: name.to_string(),
        runtime,
        model: model.map(str::to_string),
        args: Vec::new(),
    }
}

fn config(profiles: Vec<Profile>) -> Config {
    Config {
        runtimes: Runtimes {
            dwarfstar: Some(runtime("~/src/ds4/ds4-server")),
            llama_cpp: Some(runtime("llama-server")),
            omlx: Some(runtime("omlx")),
        },
        profiles,
    }
}

fn error_of(config: &Config) -> String {
    let error = config.validate().unwrap_err();
    assert_eq!(error.kind, ErrorKind::InvalidInput);
    error.message
}

#[test]
fn runtime_names_and_keys() {
    assert_eq!(Runtime::Dwarfstar.name(), "DwarfStar");
    assert_eq!(Runtime::LlamaCpp.name(), "llama.cpp");
    assert_eq!(Runtime::Omlx.name(), "oMLX");
    assert_eq!(Runtime::Dwarfstar.key(), "dwarfstar");
    assert_eq!(Runtime::LlamaCpp.key(), "llama_cpp");
    assert_eq!(Runtime::Omlx.key(), "omlx");
}

#[test]
fn invalid_is_an_invalid_input_error() {
    let error = invalid("bad".to_string());
    assert_eq!(error.kind, ErrorKind::InvalidInput);
    assert_eq!(error.message, "bad");
}

#[test]
fn readme_example_is_valid() {
    let mut qwen = profile("llama-cpp-qwen", "Qwen · 8K context", Runtime::LlamaCpp, Some("~/models/Qwen.gguf"));
    qwen.args = vec!["--ctx-size".to_string(), "8192".to_string()];
    let omlx = profile("omlx", "oMLX — configured models", Runtime::Omlx, None);
    assert!(config(vec![qwen, omlx]).validate().is_ok());
}

#[test]
fn runtime_without_executable_is_refused() {
    let mut c = config(Vec::new());
    c.runtimes.llama_cpp = Some(runtime(""));
    assert_eq!(error_of(&c), "llama.cpp requires an executable");
}

#[test]
fn runtime_errors_come_in_runtime_order() {
    let mut c = config(Vec::new());
    c.runtimes.dwarfstar = Some(runtime(""));
    c.runtimes.llama_cpp = Some(runtime(""));
    assert_eq!(error_of(&c), "DwarfStar requires an executable");
}

#[test]
fn omlx_runtime_accepts_only_an_executable() {
    let mut c = config(Vec::new());
    c.runtimes.omlx = Some(RuntimeConfig {
        executable: "omlx".to_string(),
        model_dirs: vec!["/models".to_string()],
        working_dir: None,
    });
    assert_eq!(error_of(&c), "configure oMLX in oMLX; its runtime entry accepts only an executable");
    c.runtimes.omlx = Some(RuntimeConfig {
        executable: "omlx".to_string(),
        model_dirs: Vec::new(),
        working_dir: Some("/tmp".to_string()),
    });
    assert_eq!(error_of(&c), "configure oMLX in oMLX; its runtime entry accepts only an executable");
}

#[test]
fn blank_ids_and_names_are_refused() {
    let c = config(vec![profile(" \t", "Name", Runtime::LlamaCpp, Some("m.gguf"))]);
    assert_eq!(error_of(&c), "profile IDs and names must not be empty");
    let c = config(vec![profile("id", "\u{3000}", Runtime::LlamaCpp, Some("m.gguf"))]);
    assert_eq!(error_of(&c), "profile IDs and names must not be empty");
}

#[test]
fn duplicate_ids_are_refused() {
    let c = config(vec![
        profile("a", "A", Runtime::LlamaCpp, Some("a.gguf")),
        profile("a", "B", Runtime::LlamaCpp, Some("b.gguf")),
    ]);
    assert_eq!(error_of(&c), "duplicate profile ID 'a'");
}

#[test]
fn profile_runtime_must_be_configured() {
    let mut c = config(vec![profile("a", "A", Runtime::Dwarfstar, Some("a.gguf"))]);
    c.runtimes.dwarfstar = None;
    assert_eq!(error_of(&c), "runtime not configured for profile 'a'");
}

#[test]
fn omlx_profile_sets_no_model_or_arguments() {
    let c = config(vec![profile("o", "O", Runtime::Omlx, Some("m.gguf"))]);
    assert_eq!(error_of(&c), "configure oMLX in oMLX; its launch profile cannot set a model or arguments");
    let mut o = profile("o", "O", Runtime::Omlx, None);
    o.args = vec!["--port".to_string()];
    assert_eq!(error_of(&config(vec![o])), "configure oMLX in oMLX; its launch profile cannot set a model or arguments");
}

#[test]
fn only_one_omlx_profile() {
    let c = config(vec![
        profile("o1", "O", Runtime::Omlx, None),
        profile("o2", "O", Runtime::Omlx, None),
    ]);
    assert_eq!(error_of(&c), "oMLX has one configured-models launch profile");
}

#[test]
fn per_model_profiles_need_a_model() {
    let c = config(vec![profile("a", "A", Runtime::LlamaCpp, None)]);
    assert_eq!(error_of(&c), "profile 'a' requires a model path");
    let c = config(vec![profile("b", "B", Runtime::Dwarfstar, Some(""))]);
    assert_eq!(error_of(&c), "profile 'b' requires a model path");
}

#[test]
fn first_bad_profile_is_reported() {
    let c = config(vec![
        profile("a", "A", Runtime::LlamaCpp, Some("a.gguf")),
        profile("b", "B", Runtime::LlamaCpp, None),
        profile("a", "C", Runtime::LlamaCpp, Some("c.gguf")),
    ]);
    assert_eq!(error_of(&c), "profile 'b' requires a model path");
}
