use lml::catalog::ErrorKind;
use lml::setup::{
    add_directory, ask, catalog_text, check_executable, directory_answer, directory_prompt,
    dwarfstar_checkout, dwarfstar_layout, executable_choice, setup_config, executable_prompt, DirectoryAnswer,
};

#[test]
fn ask_trims_the_answer() {
    assert_eq!(ask(12, "  ~/models \n").unwrap(), "~/models");
    assert_eq!(ask(1, "\n").unwrap(), "");
}

#[test]
fn ask_fails_at_end_of_input() {
    let e = ask(0, "").unwrap_err();
    assert_eq!(e.kind, ErrorKind::UnexpectedEof);
    assert_eq!(e.message, "setup cancelled before all questions were answered; configuration was not saved");
}

#[test]
fn directory_prompts() {
    assert_eq!(
        directory_prompt("DwarfStar", Some("/src/ds4/gguf"), true),
        "DwarfStar model directory [/src/ds4/gguf] (blank accepts and finishes): "
    );
    assert_eq!(directory_prompt("llama.cpp", None, true), "llama.cpp model directory (blank to finish): ");
    assert_eq!(
        directory_prompt("llama.cpp", Some("/x"), false),
        "Another llama.cpp model directory (blank to finish): "
    );
}

#[test]
fn directory_answers() {
    assert!(matches!(directory_answer("", true, true, "/cur", None), Ok(DirectoryAnswer::FinishWithDefault)));
    assert!(matches!(directory_answer("", false, true, "/cur", None), Ok(DirectoryAnswer::Finish)));
    assert!(matches!(directory_answer("", true, false, "/cur", None), Ok(DirectoryAnswer::Finish)));
    match directory_answer("models", true, false, "/cur", None) {
        Ok(DirectoryAnswer::Add(p)) => assert_eq!(p, "/cur/models"),
        _ => panic!("expected a directory"),
    }
}

#[test]
fn directories_are_listed_once() {
    let mut dirs = Vec::new();
    add_directory(&mut dirs, "/a".to_string(), true).unwrap();
    add_directory(&mut dirs, "/b".to_string(), true).unwrap();
    add_directory(&mut dirs, "/a".to_string(), true).unwrap();
    assert_eq!(dirs, vec!["/a", "/b"]);
    let e = add_directory(&mut dirs, "/f".to_string(), false).unwrap_err();
    assert_eq!(e.message, "/f is not a model directory");
    assert_eq!(dirs, vec!["/a", "/b"]);
}

#[test]
fn executable_prompts_and_choices() {
    assert_eq!(
        executable_prompt("omlx", Some("/opt/bin/omlx")),
        "omlx executable [/opt/bin/omlx] (blank accepts, '-' skips): "
    );
    assert_eq!(executable_prompt("llama-server", None), "llama-server executable (blank or '-' to skip): ");
    assert_eq!(executable_choice("-", Some("/bin/x".to_string()), "/cur", None).unwrap(), None);
    assert_eq!(executable_choice("", Some("/bin/x".to_string()), "/cur", None).unwrap(), Some("/bin/x".to_string()));
    assert_eq!(executable_choice("", None, "/cur", None).unwrap(), None);
    assert_eq!(executable_choice("bin/y", None, "/cur", None).unwrap(), Some("/cur/bin/y".to_string()));
    assert_eq!(executable_choice("~/y", None, "/cur", None).unwrap_err().message, "HOME is not set");
}

#[test]
fn executables_need_an_execute_bit() {
    assert!(check_executable("/bin/x", true, 0o755).is_ok());
    assert!(check_executable("/bin/x", true, 0o100).is_ok());
    assert_eq!(check_executable("/bin/x", true, 0o644).unwrap_err().message, "/bin/x is not an executable file");
    assert_eq!(check_executable("/bin", false, 0o755).unwrap_err().message, "/bin is not an executable file");
}

#[test]
fn new_catalog_text_has_a_header() {
    assert_eq!(
        catalog_text("[runtimes.omlx]\nexecutable = \"omlx\"\n"),
        "# lml catalog: edit profiles here; `lml import` only adds entries.\n[runtimes.omlx]\nexecutable = \"omlx\"\n"
    );
}

#[test]
fn dwarfstar_checkout_layout() {
    let (exe, models) = dwarfstar_layout("/src/ds4");
    assert_eq!(exe, "/src/ds4/ds4-server");
    assert_eq!(models, "/src/ds4/gguf");
}

#[test]
fn dwarfstar_answers() {
    assert_eq!(dwarfstar_checkout("", "/cur", None).unwrap(), None);
    assert_eq!(dwarfstar_checkout("src/ds4", "/cur", None).unwrap(), Some("/cur/src/ds4".to_string()));
    assert_eq!(dwarfstar_checkout("~/ds4", "/cur", None).unwrap_err().message, "HOME is not set");
}

#[test]
fn setup_configuration() {
    let c = setup_config(
        Some(("/src/ds4".to_string(), vec!["/src/ds4/gguf".to_string()])),
        Some(("/bin/llama-server".to_string(), vec!["/models".to_string()])),
        Some("/bin/omlx".to_string()),
    );
    let d = c.runtimes.dwarfstar.unwrap();
    assert_eq!(d.executable, "/src/ds4/ds4-server");
    assert_eq!(d.working_dir.as_deref(), Some("/src/ds4"));
    assert_eq!(d.model_dirs, vec!["/src/ds4/gguf"]);
    let l = c.runtimes.llama_cpp.unwrap();
    assert_eq!(l.executable, "/bin/llama-server");
    assert_eq!(l.working_dir, None);
    let o = c.runtimes.omlx.unwrap();
    assert!(o.model_dirs.is_empty());
    assert!(c.profiles.is_empty());
    let none = setup_config(None, None, None);
    assert!(none.runtimes.dwarfstar.is_none() && none.runtimes.llama_cpp.is_none() && none.runtimes.omlx.is_none());
}
