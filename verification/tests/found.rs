use lml::found::{add_found_model, first_visit, order_found};
use lml::import::{plan_import, Discovered};
use lml::catalog::{Config, Runtimes, RuntimeConfig};

fn texts(items: &[&str]) -> Vec<String> {
    items.iter().map(|s| s.to_string()).collect()
}

#[test]
fn found_models_follow_path_order() {
    let mut models = Vec::new();
    add_found_model(&mut models, "/m/a-b.gguf".to_string());
    add_found_model(&mut models, "/m/a/b.gguf".to_string());
    add_found_model(&mut models, "/m/a-b.gguf".to_string());
    add_found_model(&mut models, "/m/0.gguf".to_string());
    assert_eq!(models, texts(&["/m/0.gguf", "/m/a/b.gguf", "/m/a-b.gguf"]));
}

#[test]
fn order_found_sorts_and_drops_repeats() {
    let found = texts(&["/m/z.gguf", "/m/a.gguf", "/m/z.gguf", "/m/k/q.gguf"]);
    assert_eq!(order_found(&found), texts(&["/m/a.gguf", "/m/k/q.gguf", "/m/z.gguf"]));
    assert!(order_found(&Vec::new()).is_empty());
}

#[test]
fn a_directory_is_visited_once() {
    let mut visited = Vec::new();
    assert!(first_visit(&mut visited, "/models".to_string()));
    assert!(first_visit(&mut visited, "/models/sub".to_string()));
    assert!(!first_visit(&mut visited, "/models".to_string()));
    assert_eq!(visited, texts(&["/models", "/models/sub"]));
}

#[test]
fn import_takes_found_models_in_path_order() {
    let config = Config {
        runtimes: Runtimes {
            dwarfstar: None,
            llama_cpp: Some(RuntimeConfig {
                executable: "llama-server".to_string(),
                model_dirs: Vec::new(),
                working_dir: None,
            }),
            omlx: None,
        },
        profiles: Vec::new(),
    };
    let discovered = Discovered {
        dwarfstar: texts(&["/ignored/x.gguf"]),
        llama_cpp: texts(&["/models/b.gguf", "/models/a.gguf", "/models/b.gguf"]),
    };
    let adds = plan_import(&config, &Vec::new(), &discovered).unwrap();
    let ids: Vec<String> = adds.iter().map(|p| p.id.clone()).collect();
    assert_eq!(ids, texts(&["llama-cpp-a", "llama-cpp-b"]));
}

#[test]
fn import_adds_runtimes_in_order() {
    let settings = |executable: &str| RuntimeConfig {
        executable: executable.to_string(),
        model_dirs: Vec::new(),
        working_dir: None,
    };
    let config = Config {
        runtimes: Runtimes {
            dwarfstar: Some(settings("ds4-server")),
            llama_cpp: Some(settings("llama-server")),
            omlx: Some(settings("omlx")),
        },
        profiles: Vec::new(),
    };
    let discovered = Discovered {
        dwarfstar: texts(&["/d/z.gguf", "/d/a.gguf"]),
        llama_cpp: texts(&["/l/b.gguf"]),
    };
    let adds = plan_import(&config, &Vec::new(), &discovered).unwrap();
    let ids: Vec<String> = adds.iter().map(|p| p.id.clone()).collect();
    assert_eq!(ids, texts(&["dwarfstar-a", "dwarfstar-z", "llama-cpp-b", "omlx"]));
}
