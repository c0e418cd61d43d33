use lml::catalog::{Config, ErrorKind, Profile, Runtime, RuntimeConfig, Runtimes};
use lml::catalog_file::{model_identity, Canonical, Catalog};
use lml::import::{plan_import, unique_id, Discovered};

const SOURCE: &str = "profiles = [] # imported below\n\n[runtimes.llama_cpp]\nexecutable = \"llama-server\"\nmodel_dirs = [\"/models\"]\n\n[runtimes.omlx]\nexecutable = \"omlx\"\n";

fn runtime(executable: &str) -> RuntimeConfig {
    RuntimeConfig { executable: executable.to_string(), model_dirs: Vec::new(), working_dir: None }
}

fn config(profiles: Vec<Profile>) -> Config {
    Config {
        runtimes: Runtimes {
            dwarfstar: None,
            llama_cpp: Some(runtime("llama-server")),
            omlx: Some(runtime("omlx")),
        },
        profiles,
    }
}

fn found(dwarfstar: &[&str], llama_cpp: &[&str]) -> Discovered {
    Discovered {
        dwarfstar: dwarfstar.iter().map(|s| s.to_string()).collect(),
        llama_cpp: llama_cpp.iter().map(|s| s.to_string()).collect(),
    }
}

fn ids(profiles: &[Profile]) -> Vec<String> {
    profiles.iter().map(|p| p.id.clone()).collect()
}

#[test]
fn unique_ids_count_up_from_two() {
    let taken = vec!["omlx".to_string(), "omlx-2".to_string(), "omlx-4".to_string()];
    assert_eq!(unique_id(&taken, &"omlx".to_string()), "omlx-3");
    assert_eq!(unique_id(&taken, &"free".to_string()), "free");
    let many: Vec<String> = std::iter::once("m".to_string())
        .chain((2..=11).map(|k| format!("m-{k}")))
        .collect();
    assert_eq!(unique_id(&many, &"m".to_string()), "m-12");
}

#[test]
fn import_adds_models_then_omlx() {
    let c = config(Vec::new());
    let adds = plan_import(&c, &Vec::new(), &found(&[], &["/models/Qwen3-8B-Q4.gguf", "/models/sub/Qwen3 8B q4.gguf"])).unwrap();
    assert_eq!(ids(&adds), vec!["llama-cpp-qwen3-8b-q4", "llama-cpp-qwen3-8b-q4-2", "omlx"]);
    assert_eq!(adds[0].name, "Qwen3-8B-Q4");
    assert_eq!(adds[1].name, "Qwen3 8B q4");
    assert_eq!(adds[1].model.as_deref(), Some("/models/sub/Qwen3 8B q4.gguf"));
    assert!(adds[0].args.is_empty());
    assert_eq!(adds[2].name, "oMLX — configured models");
    assert_eq!(adds[2].runtime, Runtime::Omlx);
    assert_eq!(adds[2].model, None);
}

#[test]
fn import_skips_represented_models_and_existing_omlx() {
    let existing = vec![
        Profile {
            id: "llama-cpp-qwen".to_string(),
            name: "Qwen".to_string(),
            runtime: Runtime::LlamaCpp,
            model: Some("~/models/q.gguf".to_string()),
            args: vec!["--ctx-size".to_string()],
        },
        Profile {
            id: "omlx".to_string(),
            name: "oMLX".to_string(),
            runtime: Runtime::Omlx,
            model: None,
            args: Vec::new(),
        },
    ];
    let c = config(existing);
    let represented = vec![(Runtime::LlamaCpp, "/models/q.gguf".to_string())];
    let adds = plan_import(&c, &represented, &found(&["/models/d.gguf"], &["/models/q.gguf", "/models/q.gguf", "/models/r.gguf"])).unwrap();
    assert_eq!(ids(&adds), vec!["llama-cpp-r"]);
}

#[test]
fn same_model_for_two_runtimes_gets_two_profiles() {
    let mut c = config(Vec::new());
    c.runtimes.dwarfstar = Some(runtime("ds4-server"));
    c.runtimes.omlx = None;
    let adds = plan_import(&c, &Vec::new(), &found(&["/m/x.gguf"], &["/m/x.gguf"])).unwrap();
    assert_eq!(ids(&adds), vec!["dwarfstar-x", "llama-cpp-x"]);
}

#[test]
fn model_without_file_name_stops_import() {
    let c = config(Vec::new());
    let e = plan_import(&c, &Vec::new(), &found(&[], &["/"])).unwrap_err();
    assert_eq!(e.kind, ErrorKind::InvalidInput);
    assert_eq!(e.message, "model has no file name");
}

#[test]
fn load_checks_rules_and_parses() {
    let bad = Config {
        runtimes: Runtimes { dwarfstar: None, llama_cpp: Some(runtime("")), omlx: None },
        profiles: Vec::new(),
    };
    let e = Catalog::load("/c/config.toml".to_string(), SOURCE, bad).err().unwrap();
    assert_eq!(e.message, "llama.cpp requires an executable");
    let e = Catalog::load("/c/config.toml".to_string(), "a = [", config(Vec::new())).err().unwrap();
    assert_eq!(e.kind, ErrorKind::InvalidInput);
    assert!(!e.message.is_empty());
    let e = Catalog::load("/".to_string(), SOURCE, config(Vec::new())).err().unwrap();
    assert_eq!(e.message, "configuration has no parent directory");
    let c = Catalog::load("/c/config.toml".to_string(), SOURCE, config(Vec::new())).unwrap();
    assert_eq!(c.directory, "/c");
    assert_eq!(c.path(), "/c/config.toml");
}

#[test]
fn import_writes_tables_and_keeps_comments() {
    let mut c = Catalog::load("/c/config.toml".to_string(), SOURCE, config(Vec::new())).unwrap();
    let count = c.import(&Vec::new(), &found(&[], &["/models/a.gguf"])).unwrap();
    assert_eq!(count, 2);
    assert_eq!(ids(&c.config.profiles), vec!["llama-cpp-a", "omlx"]);
    let text = c.document_text();
    assert!(text.contains("# imported below"));
    assert!(text.starts_with(" # imported below\n[[profiles"));
    assert!(text.contains("id = \"llama-cpp-a\""));
    assert!(text.contains("runtime = \"llama_cpp\""));
    assert!(text.contains("model = \"/models/a.gguf\""));
    assert!(text.contains("name = \"oMLX — configured models\""));
    assert!(text.contains("[runtimes.omlx]"));
    assert!(!text.contains("profiles = []"));
    assert!(text.find("llama-cpp-a").unwrap() < text.find("id = \"omlx\"").unwrap());
}

#[test]
fn import_twice_adds_nothing_more() {
    let mut c = Catalog::load("/c/config.toml".to_string(), SOURCE, config(Vec::new())).unwrap();
    let scan = found(&[], &["/models/a.gguf", "/models/b.gguf"]);
    assert_eq!(c.import(&Vec::new(), &scan).unwrap(), 3);
    let represented: Vec<(Runtime, String)> = c
        .config
        .profiles
        .iter()
        .filter_map(|p| p.model.clone().map(|m| (p.runtime, m)))
        .collect();
    let before = c.document_text();
    assert_eq!(c.import(&represented, &scan).unwrap(), 0);
    assert_eq!(c.document_text(), before);
    assert_eq!(c.config.profiles.len(), 3);
}

#[test]
fn existing_tables_are_kept() {
    let source = "[runtimes.llama_cpp]\nexecutable = \"llama-server\"\n\n# my favourite\n[[profiles]]\nid = \"mine\"\nname = \"Mine\"\nruntime = \"llama_cpp\"\nmodel = \"/models/m.gguf\"\nargs = [\"-c\", \"4096\"] # tuned\n";
    let mine = Profile {
        id: "mine".to_string(),
        name: "Mine".to_string(),
        runtime: Runtime::LlamaCpp,
        model: Some("/models/m.gguf".to_string()),
        args: vec!["-c".to_string(), "4096".to_string()],
    };
    let mut cfg = config(vec![mine]);
    cfg.runtimes.omlx = None;
    let mut c = Catalog::load("/c/config.toml".to_string(), source, cfg).unwrap();
    let represented = vec![(Runtime::LlamaCpp, "/models/m.gguf".to_string())];
    assert_eq!(c.import(&represented, &found(&[], &["/models/m.gguf", "/models/n.gguf"])).unwrap(), 1);
    let text = c.document_text();
    assert!(text.starts_with(source));
    assert!(text.contains("id = \"llama-cpp-n\""));
}

#[test]
fn inline_profiles_refuse_import() {
    let source = "profiles = [{ id = \"x\" }]\n";
    let mut c = Catalog::load("/c/config.toml".to_string(), source, config(Vec::new())).unwrap();
    let e = c.import(&Vec::new(), &found(&[], &["/models/a.gguf"])).unwrap_err();
    assert_eq!(e.message, "profiles must use [[profiles]] tables");
}

#[test]
fn imported_catalog_stays_valid() {
    let existing = vec![Profile {
        id: "llama-cpp-a".to_string(),
        name: "mine".to_string(),
        runtime: Runtime::LlamaCpp,
        model: Some("/elsewhere/a.gguf".to_string()),
        args: Vec::new(),
    }];
    let mut c = Catalog::load("/c/config.toml".to_string(), SOURCE, config(existing)).unwrap();
    let represented = vec![(Runtime::LlamaCpp, "/elsewhere/a.gguf".to_string())];
    let count = c.import(&represented, &found(&[], &["/models/a.gguf", "/models/A.gguf"])).unwrap();
    assert_eq!(count, 3);
    assert_eq!(ids(&c.config.profiles), vec!["llama-cpp-a", "llama-cpp-a-2", "llama-cpp-a-3", "omlx"]);
    assert!(c.config.validate().is_ok());
}

#[test]
fn refused_import_changes_nothing() {
    let source = "profiles = [{ id = \"x\" }]\n";
    let mut c = Catalog::load("/c/config.toml".to_string(), source, config(Vec::new())).unwrap();
    let before = c.document_text();
    assert!(c.import(&Vec::new(), &found(&[], &["/models/a.gguf"])).is_err());
    assert!(c.config.profiles.is_empty());
    assert_eq!(c.document_text(), before);
}

#[test]
fn model_locations_and_identities() {
    let profiles = vec![
        Profile {
            id: "a".to_string(),
            name: "A".to_string(),
            runtime: Runtime::LlamaCpp,
            model: Some("models/a.gguf".to_string()),
            args: Vec::new(),
        },
        Profile {
            id: "o".to_string(),
            name: "O".to_string(),
            runtime: Runtime::Omlx,
            model: None,
            args: Vec::new(),
        },
        Profile {
            id: "b".to_string(),
            name: "B".to_string(),
            runtime: Runtime::LlamaCpp,
            model: Some("~/b.gguf".to_string()),
            args: Vec::new(),
        },
    ];
    let c = Catalog::load("/c/config.toml".to_string(), SOURCE, config(profiles)).unwrap();
    assert_eq!(
        c.model_locations(Some("/home/u")).unwrap(),
        vec![(Runtime::LlamaCpp, "/c/models/a.gguf".to_string()), (Runtime::LlamaCpp, "/home/u/b.gguf".to_string())]
    );
    assert_eq!(c.model_locations(None).unwrap_err().message, "HOME is not set");
    assert_eq!(model_identity("/c/m.gguf".to_string(), Canonical::Found("/real/m.gguf".to_string())), "/real/m.gguf");
    assert_eq!(model_identity("/c/m.gguf".to_string(), Canonical::Missing), "/c/m.gguf");
}
