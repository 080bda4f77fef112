use replikate::dispatch::{dispatch_plan, Actions, Dispatcher, Stage, Step};
use replikate::error::{load_project, project_path, AppError};
use replikate::model::{ParsingError, Project};
use replikate::tree::{tree_dirs, TreeAction, TreeBuilder, TreeEvent};
use replikate::tsv::TSVSerializable;

const CONFIG: &str = "requirements:
  - name: gcc
    version: \"9.3\"
  - name: python
    version: 3.8
  - name: make
    version: 4
experiments:
  - name: small
    args: [\"--size\", 10]
  - name: large
git:
  url: https://example.org/repo.git
  ref: main
build:
  - make
run:
  - ./bench
clean:
  - src/build
";

fn none() -> Actions {
    Actions { requirements: false, git: false, build: false, clean: false, run: false }
}

fn load(text: &str) -> Result<Project, AppError> {
    load_project("experiment.yaml", text)
}

#[test]
fn path_strips_extension() {
    assert_eq!(project_path("experiment.yaml"), "experiment");
}

#[test]
fn path_without_extension_is_kept() {
    assert_eq!(project_path("run"), "run");
}

#[test]
fn path_strips_only_last_extension() {
    assert_eq!(project_path("dir/a.b.yaml"), "dir/a.b");
}

#[test]
fn loads_project_in_document_order() {
    let p = load(CONFIG).unwrap();
    assert_eq!(p.path, "experiment");
    let names: Vec<&str> = p.requirements.iter().map(|r| r.name.as_str()).collect();
    assert_eq!(names, vec!["gcc", "python", "make"]);
    let versions: Vec<&str> = p.requirements.iter().map(|r| r.version.as_str()).collect();
    assert_eq!(versions, vec!["9.3", "3.8", "4"]);
    let exps: Vec<&str> = p.experiments.iter().map(|e| e.name.as_str()).collect();
    assert_eq!(exps, vec!["small", "large"]);
    assert_eq!(p.experiments[0].args, vec!["--size".to_string(), "10".to_string()]);
    assert!(p.experiments[1].args.is_empty());
    let git = p.git.as_ref().unwrap();
    assert_eq!(git.url, "https://example.org/repo.git");
    assert_eq!(git.reference, "main");
    assert_eq!(p.build, vec!["make".to_string()]);
    assert_eq!(p.run, vec!["./bench".to_string()]);
    assert_eq!(p.clean, vec!["src/build".to_string()]);
}

#[test]
fn optional_sections_default_to_empty() {
    let p = load("requirements: []\nexperiments: []\n").unwrap();
    assert!(p.requirements.is_empty());
    assert!(p.experiments.is_empty());
    assert!(p.git.is_none());
    assert!(p.build.is_empty() && p.run.is_empty() && p.clean.is_empty());
}

#[test]
fn syntax_error_is_rejected() {
    assert!(matches!(load("requirements: [\n  - name: x\n"), Err(AppError::Parsing(ParsingError::Syntax))));
    assert!(matches!(load("a: [1, 2"), Err(AppError::Parsing(ParsingError::Syntax))));
}

#[test]
fn empty_text_has_no_document() {
    assert!(matches!(load(""), Err(AppError::Parsing(ParsingError::NoDocument))));
}

#[test]
fn root_must_be_a_mapping() {
    assert!(matches!(load("- a\n- b\n"), Err(AppError::Parsing(ParsingError::RootNotMapping))));
}

#[test]
fn missing_experiment_name_is_rejected() {
    let text = "requirements: []\nexperiments:\n  - name: a\n  - args: [x]\n";
    match load(text) {
        Err(AppError::Parsing(ParsingError::MissingField(p))) => {
            assert_eq!(p.section, "experiments");
            assert_eq!(p.index, Some(1));
            assert_eq!(p.field.as_deref(), Some("name"));
        },
        _ => panic!("expected a missing name"),
    }
}

#[test]
fn wrong_version_type_is_rejected() {
    let text = "requirements:\n  - name: a\n    version: [1, 2]\nexperiments: []\n";
    match load(text) {
        Err(AppError::Parsing(ParsingError::WrongType(p))) => {
            assert_eq!(p.section, "requirements");
            assert_eq!(p.index, Some(0));
            assert_eq!(p.field.as_deref(), Some("version"));
        },
        _ => panic!("expected a wrong type"),
    }
}

#[test]
fn missing_section_is_rejected() {
    match load("requirements: []\n") {
        Err(AppError::Parsing(ParsingError::MissingField(p))) => {
            assert_eq!(p.section, "");
            assert_eq!(p.index, None);
            assert_eq!(p.field.as_deref(), Some("experiments"));
        },
        _ => panic!("expected a missing section"),
    }
}

#[test]
fn bad_build_entry_is_reported_at_its_index() {
    match load("requirements: []\nexperiments: []\nbuild: [make, [x]]\n") {
        Err(AppError::Parsing(ParsingError::WrongType(p))) => {
            assert_eq!(p.section, "build");
            assert_eq!(p.index, Some(1));
            assert_eq!(p.field, None);
        },
        _ => panic!("expected a wrong type"),
    }
}

#[test]
fn tree_lists_root_src_logs_and_experiments() {
    let p = load(CONFIG).unwrap();
    assert_eq!(
        tree_dirs(&p),
        vec!["experiment", "experiment/src", "experiment/logs", "experiment/logs/small", "experiment/logs/large"]
    );
}

#[test]
fn tree_is_the_same_twice() {
    let p = load(CONFIG).unwrap();
    assert_eq!(tree_dirs(&p), tree_dirs(&p));
}

#[test]
fn tsv_quotes_are_doubled() {
    assert_eq!("He said \"hi\"".to_string().to_tsv_format(), "\"He said \"\"hi\"\"\"");
    assert_eq!("He said \"hi\"".to_tsv_format(), "\"He said \"\"hi\"\"\"");
}

#[test]
fn tsv_mixed_row() {
    let row: Vec<Box<dyn TSVSerializable>> = vec![Box::new(1i32), Box::new("a,b"), Box::new(true)];
    assert_eq!(row.to_tsv_format(), "1\t\"a,b\"\ttrue");
}

#[test]
fn tsv_empty_row() {
    let row: Vec<u8> = Vec::new();
    assert_eq!(row.to_tsv_format(), "");
}

#[test]
fn tsv_numbers() {
    assert_eq!(0u8.to_tsv_format(), "0");
    assert_eq!(u64::MAX.to_tsv_format(), "18446744073709551615");
    assert_eq!((-42i32).to_tsv_format(), "-42");
    assert_eq!(i128::MIN.to_tsv_format(), "-170141183460469231731687303715884105728");
    assert_eq!('x'.to_tsv_format(), "x");
    assert_eq!(false.to_tsv_format(), "false");
    assert_eq!(Box::new(7usize).to_tsv_format(), "7");
    assert_eq!(vec![vec![1u8, 2], vec![3]].to_tsv_format(), "1\t2\t3");
}

#[test]
fn plan_is_in_fixed_order() {
    let a = Actions { requirements: true, git: true, build: true, clean: true, run: true };
    assert_eq!(
        dispatch_plan(&a),
        vec![
            Stage::CreateTree,
            Stage::ListRequirements,
            Stage::Fetch,
            Stage::Build,
            Stage::Clean,
            Stage::RebuildTree,
            Stage::Execute
        ]
    );
}

#[test]
fn no_actions_only_builds_tree() {
    assert_eq!(dispatch_plan(&none()), vec![Stage::CreateTree]);
}

#[test]
fn clean_runs_before_execute() {
    let a = Actions { run: true, clean: true, ..none() };
    let mut d = Dispatcher::new(&a);
    let mut seen = Vec::new();
    loop {
        match d.advance(Ok(())) {
            Step::Run(s) => seen.push(s),
            Step::Done => break,
            Step::Failed(_) => panic!("nothing failed"),
        }
    }
    assert_eq!(seen, vec![Stage::CreateTree, Stage::Clean, Stage::RebuildTree, Stage::Execute]);
}

#[test]
fn failed_clean_stops_execute() {
    let a = Actions { run: true, clean: true, ..none() };
    let mut d = Dispatcher::new(&a);
    assert!(matches!(d.advance(Ok(())), Step::Run(Stage::CreateTree)));
    assert!(matches!(d.advance(Ok(())), Step::Run(Stage::Clean)));
    match d.advance(Err(AppError::ExternalError("clean failed".to_string()))) {
        Step::Failed(AppError::ExternalError(m)) => assert_eq!(m, "clean failed"),
        _ => panic!("expected the failure back"),
    }
    assert!(matches!(d.advance(Ok(())), Step::Done));
}

#[test]
fn failed_build_stops_execute() {
    let a = Actions { build: true, run: true, ..none() };
    let mut d = Dispatcher::new(&a);
    assert!(matches!(d.advance(Ok(())), Step::Run(Stage::CreateTree)));
    assert!(matches!(d.advance(Ok(())), Step::Run(Stage::Build)));
    assert!(matches!(d.advance(Err(AppError::ExternalError("make: error".to_string()))), Step::Failed(_)));
    assert!(matches!(d.advance(Ok(())), Step::Done));
}

#[test]
fn error_messages() {
    assert_eq!(
        AppError::MissingArgument("config".to_string()).message(),
        "Missing argument 'config', use --help to show usage."
    );
    assert_eq!(
        AppError::IOError("a.yaml".to_string(), "No such file".to_string()).message(),
        "No such file for 'a.yaml'."
    );
    assert_eq!(AppError::ExternalError("boom".to_string()).message(), "boom");
    let e = load("requirements: []\nexperiments:\n  - name: a\n  - args: [x]\n").err().unwrap();
    assert_eq!(e.message(), "Cannot parse the configuration file: missing field experiments[1].name");
    let e = load("requirements: []\n").err().unwrap();
    assert_eq!(e.message(), "Cannot parse the configuration file: missing field experiments");
    let e = load("requirements: []\nexperiments: []\ngit: 3\n").err().unwrap();
    assert_eq!(e.message(), "Cannot parse the configuration file: wrong type for git");
}

#[test]
fn requirement_listing() {
    let p = load(CONFIG).unwrap();
    assert_eq!(
        p.requirement_lines(),
        vec!["  gcc, version: 9.3", "  python, version: 3.8", "  make, version: 4"]
    );
}

#[test]
fn null_field_counts_as_missing() {
    match load("requirements:\n  - name: a\n    version:\nexperiments: []\n") {
        Err(AppError::Parsing(ParsingError::MissingField(p))) => {
            assert_eq!(p.field.as_deref(), Some("version"));
        },
        _ => panic!("expected a missing version"),
    }
}

fn probe(a: TreeAction) -> String {
    match a {
        TreeAction::Probe(d) => d,
        _ => panic!("expected a probe"),
    }
}

#[test]
fn builder_creates_only_missing_dirs() {
    let p = load("requirements: []\nexperiments:\n  - name: e\n").unwrap();
    let mut b = TreeBuilder::new(&p);
    assert_eq!(probe(b.step(TreeEvent::Start)), "experiment");
    assert_eq!(probe(b.step(TreeEvent::Exists(true))), "experiment/src");
    match b.step(TreeEvent::Exists(false)) {
        TreeAction::Create(d) => assert_eq!(d, "experiment/src"),
        _ => panic!("expected a creation"),
    }
    assert_eq!(probe(b.step(TreeEvent::Made(Ok(())))), "experiment/logs");
    assert_eq!(probe(b.step(TreeEvent::Exists(true))), "experiment/logs/e");
    assert!(matches!(b.step(TreeEvent::Exists(true)), TreeAction::Done));
    assert!(matches!(b.step(TreeEvent::Start), TreeAction::Done));
}

#[test]
fn builder_stops_at_first_failure() {
    let p = load("requirements: []\nexperiments:\n  - name: e\n").unwrap();
    let mut b = TreeBuilder::new(&p);
    assert_eq!(probe(b.step(TreeEvent::Start)), "experiment");
    assert!(matches!(b.step(TreeEvent::Exists(false)), TreeAction::Create(_)));
    match b.step(TreeEvent::Made(Err("Permission denied".to_string()))) {
        TreeAction::Failed(e) => assert_eq!(e.message(), "Permission denied for 'experiment'."),
        _ => panic!("expected a failure"),
    }
    assert!(matches!(b.step(TreeEvent::Made(Ok(()))), TreeAction::Done));
}

#[test]
fn builder_on_existing_tree_creates_nothing() {
    let p = load(CONFIG).unwrap();
    let mut b = TreeBuilder::new(&p);
    let mut event = TreeEvent::Start;
    let mut probed = Vec::new();
    loop {
        match b.step(event) {
            TreeAction::Probe(d) => {
                probed.push(d);
                event = TreeEvent::Exists(true);
            },
            TreeAction::Done => break,
            _ => panic!("nothing should be created"),
        }
    }
    assert_eq!(probed, tree_dirs(&p));
}

#[test]
fn path_ignores_dots_in_directories() {
    assert_eq!(project_path("dir.v2/config"), "dir.v2/config");
    assert_eq!(project_path("dir.v2/config.yml"), "dir.v2/config");
}

#[test]
fn empty_project_path_is_refused() {
    let text = "requirements: []\nexperiments: []\n";
    match load_project(".yaml", text) {
        Err(e) => assert_eq!(e.message(), "Missing argument 'config', use --help to show usage."),
        Ok(_) => panic!("an empty path must not be accepted"),
    }
    assert!(matches!(load_project("", text), Err(AppError::MissingArgument(_))));
}

#[test]
fn overlong_line_is_refused() {
    let mut text = String::from("requirements: []\nexperiments: []\n");
    for _ in 0..20000 {
        text.push_str("- ");
    }
    text.push_str("x\n");
    assert!(matches!(load(&text), Err(AppError::Parsing(ParsingError::LineTooLong))));
    let line = format!("requirements: []\nexperiments: []\nbuild: [\"{}\"]\n", "a".repeat(240));
    assert!(load(&line).is_ok());
}

#[test]
fn builder_ignores_missing_before_any_probe() {
    let p = load(CONFIG).unwrap();
    let mut b = TreeBuilder::new(&p);
    assert!(matches!(b.step(TreeEvent::Exists(false)), TreeAction::Done));
    assert!(matches!(b.step(TreeEvent::Start), TreeAction::Done));
}

#[test]
fn tsv_row_splits_back_into_fields() {
    let row = vec!["a".to_string(), "b\"c".to_string(), String::new()].to_tsv_format();
    assert_eq!(row, "\"a\"\t\"b\"\"c\"\t\"\"");
    assert_eq!(row.matches('\t').count(), 2);
    let fields: Vec<&str> = row.split('\t').collect();
    assert_eq!(fields, vec!["\"a\"", "\"b\"\"c\"", "\"\""]);
    assert_eq!(fields[1][1..fields[1].len() - 1].replace("\"\"", "\""), "b\"c");
}
