use repoman::errors::RenderError;
use repoman::repo_manager::RepoManager;
use repoman::template::render;
use repoman::template::FsOp;
use repoman::template::Template;
use repoman::template::TemplateSet;

fn vars(bindings: &[(&str, &str)]) -> Vec<(String, String)> {
    bindings.iter().map(|(k, v)| (k.to_string(), v.to_string())).collect()
}

fn path(components: &[&str]) -> Vec<String> {
    components.iter().map(|c| c.to_string()).collect()
}

#[test]
fn literal_text_renders_unchanged() {
    let rendered = render("plain text, no placeholders", &vars(&[("project_name", "foo")]));
    assert_eq!(rendered, Ok("plain text, no placeholders".to_string()));
}

#[test]
fn the_empty_template_renders_empty() {
    assert_eq!(render("", &vars(&[])), Ok(String::new()));
}

#[test]
fn a_placeholder_is_replaced_by_its_value() {
    let rendered = render("# {{project_name}}", &vars(&[("project_name", "foo")]));
    assert_eq!(rendered, Ok("# foo".to_string()));
}

#[test]
fn every_occurrence_is_replaced() {
    let rendered = render(
        "{{project_name}}/{{project_name}}.txt",
        &vars(&[("project_name", "foo")]),
    );
    assert_eq!(rendered, Ok("foo/foo.txt".to_string()));
}

#[test]
fn distinct_placeholders_take_their_own_values() {
    let rendered = render(
        "{{a}} and {{b}}",
        &vars(&[("a", "first"), ("b", "second")]),
    );
    assert_eq!(rendered, Ok("first and second".to_string()));
}

#[test]
fn single_braces_are_literal() {
    let rendered = render("{ not } a { placeholder }", &vars(&[]));
    assert_eq!(rendered, Ok("{ not } a { placeholder }".to_string()));
}

#[test]
fn an_unbound_key_is_a_rendering_error() {
    let rendered = render("# {{maintainer}}", &vars(&[("project_name", "foo")]));
    assert_eq!(
        rendered,
        Err(RenderError::UndefinedPlaceholder { key: "maintainer".to_string() }),
    );
}

#[test]
fn blanks_around_a_key_are_ignored() {
    let rendered = render("# {{ project_name }}", &vars(&[("project_name", "foo")]));
    assert_eq!(rendered, Ok("# foo".to_string()));
}

#[test]
fn tabs_around_a_key_are_ignored() {
    let rendered = render("{{	project_name	 }}!", &vars(&[("project_name", "foo")]));
    assert_eq!(rendered, Ok("foo!".to_string()));
}

#[test]
fn a_blank_only_placeholder_reports_the_empty_key() {
    let rendered = render("{{   }}", &vars(&[("project_name", "foo")]));
    assert_eq!(rendered, Err(RenderError::UndefinedPlaceholder { key: String::new() }));
}

#[test]
fn the_fixed_author_renders_from_the_template_globals() {
    let manager = RepoManager::new(Vec::new(), Vec::new(), Vec::new());
    let globals = manager.create_template_globals(&"foo".to_string());
    let rendered = render("{{ project_name }} by {{ author }}", &globals);
    assert_eq!(rendered, Ok("foo by PurpleMyst".to_string()));
}

#[test]
fn an_unterminated_placeholder_is_a_rendering_error() {
    let rendered = render("# {{project_name", &vars(&[("project_name", "foo")]));
    assert_eq!(rendered, Err(RenderError::UnterminatedPlaceholder));
}

fn default_template() -> Template {
    Template::Directory {
        name: "{{project_name}}".to_string(),
        contents: vec![Template::File {
            name: "README.md".to_string(),
            contents: "# {{project_name}}".to_string(),
        }],
    }
}

#[test]
fn the_default_template_plans_a_readme_under_the_project_root() {
    let ops = default_template()
        .create(&Vec::new(), &vars(&[("project_name", "foo")]))
        .expect("the default template must render");
    assert_eq!(
        ops,
        vec![
            FsOp::CreateDir { path: path(&["foo"]) },
            FsOp::WriteFile { path: path(&["foo", "README.md"]), contents: "# foo".to_string() },
        ],
    );
}

#[test]
fn materialization_is_deterministic() {
    let mapping = vars(&[("project_name", "foo")]);
    let first = default_template().create(&Vec::new(), &mapping);
    let second = default_template().create(&Vec::new(), &mapping);
    assert_eq!(first, second);
}

#[test]
fn siblings_are_planned_in_declaration_order() {
    let set = TemplateSet {
        nodes: vec![
            Template::File { name: "a.txt".to_string(), contents: "one".to_string() },
            Template::Directory {
                name: "{{project_name}}".to_string(),
                contents: vec![Template::File {
                    name: "b.txt".to_string(),
                    contents: "{{project_name}}!".to_string(),
                }],
            },
            Template::File { name: "c.txt".to_string(), contents: "three".to_string() },
        ],
    };
    let ops = set
        .create(&path(&["root"]), &vars(&[("project_name", "p")]))
        .expect("the set must render");
    assert_eq!(
        ops,
        vec![
            FsOp::WriteFile { path: path(&["root", "a.txt"]), contents: "one".to_string() },
            FsOp::CreateDir { path: path(&["root", "p"]) },
            FsOp::WriteFile { path: path(&["root", "p", "b.txt"]), contents: "p!".to_string() },
            FsOp::WriteFile { path: path(&["root", "c.txt"]), contents: "three".to_string() },
        ],
    );
}

#[test]
fn a_failing_child_aborts_the_whole_plan() {
    let set = TemplateSet {
        nodes: vec![
            Template::File { name: "a.txt".to_string(), contents: "fine".to_string() },
            Template::File { name: "{{missing}}".to_string(), contents: "".to_string() },
        ],
    };
    let ops = set.create(&Vec::new(), &vars(&[("project_name", "p")]));
    assert_eq!(ops, Err(RenderError::UndefinedPlaceholder { key: "missing".to_string() }));
}

#[test]
fn creating_a_project_registers_its_root_with_no_labels() {
    let ops = default_template()
        .create(&path(&["home", "me"]), &vars(&[("project_name", "foo")]))
        .expect("the default template must render");
    let root = match &ops[0] {
        FsOp::CreateDir { path } => path.clone(),
        other => panic!("the plan must start with the project root, not {:?}", other),
    };
    assert_eq!(root, path(&["home", "me", "foo"]));
    let mut manager = RepoManager::new(Vec::new(), Vec::new(), Vec::new());
    assert_eq!(manager.register_repo(root), Ok(()));
    assert_eq!(manager.repos[0].path, path(&["home", "me", "foo"]));
    assert!(manager.repos[0].labels.is_empty());
}
