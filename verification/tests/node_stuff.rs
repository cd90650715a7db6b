use bundle_graph::compose::CssComposeDependency;
use bundle_graph::dependency::{
    CodeGeneratable, CodeGeneratableContext, CodeGeneratableResult, Dependency, DependencyCategory,
    DependencyType, ErrorSpan, ModuleDependency, ReplaceConstDependency, RuntimeGlobals,
};
use bundle_graph::identifier::{DependencyId, ModuleIdentifier};
use bundle_graph::js_module::{Ast, JsModule, MarkInfo};
use bundle_graph::node_stuff::{replace_node_stuff, scan_ident, str_eq, NodeOption, NodeStuffError};

fn options(dirname: &str, filename: &str, global: &str) -> NodeOption {
    NodeOption {
        dirname: String::from(dirname),
        filename: String::from(filename),
        global: String::from(global),
    }
}

fn content(dependency: Option<ReplaceConstDependency>) -> Option<(u32, u32, String, Option<RuntimeGlobals>)> {
    dependency.map(|d| (d.start, d.end, d.content, d.runtime_requirements))
}

#[test]
fn strings_are_compared_by_content() {
    assert!(str_eq("", ""));
    assert!(str_eq("mock", "mock"));
    assert!(!str_eq("mock", "mocK"));
    assert!(!str_eq("mock", "moc"));
    assert!(!str_eq("warn", "warn-mock"));
    assert!(str_eq("caf\u{e9}", "caf\u{e9}"));
}

#[test]
fn dirname_is_mocked_as_the_root() {
    let quoted = Some((3, 12, String::from("'/'"), None));
    assert_eq!(content(replace_node_stuff("__dirname", 3, 12, &options("mock", "false", "false"), "src")), quoted);
    assert_eq!(content(replace_node_stuff("__dirname", 3, 12, &options("warn-mock", "false", "false"), "src")), quoted);
}

#[test]
fn dirname_becomes_the_relative_directory() {
    assert_eq!(
        content(replace_node_stuff("__dirname", 0, 9, &options("true", "mock", "true"), "src/lib")),
        Some((0, 9, String::from("'src/lib'"), None))
    );
}

#[test]
fn dirname_stays_under_other_settings() {
    assert_eq!(content(replace_node_stuff("__dirname", 0, 9, &options("false", "mock", "true"), "src")), None);
    assert_eq!(content(replace_node_stuff("__dirname", 0, 9, &options("warn", "mock", "true"), "src")), None);
}

#[test]
fn filename_is_mocked_as_the_index_file() {
    let quoted = Some((1, 11, String::from("'/index.js'"), None));
    assert_eq!(content(replace_node_stuff("__filename", 1, 11, &options("false", "mock", "false"), "a.js")), quoted);
    assert_eq!(content(replace_node_stuff("__filename", 1, 11, &options("false", "warn-mock", "false"), "a.js")), quoted);
}

#[test]
fn filename_becomes_the_relative_path() {
    assert_eq!(
        content(replace_node_stuff("__filename", 1, 11, &options("mock", "true", "false"), "src/a.js")),
        Some((1, 11, String::from("'src/a.js'"), None))
    );
    assert_eq!(content(replace_node_stuff("__filename", 1, 11, &options("mock", "false", "false"), "src/a.js")), None);
}

#[test]
fn global_becomes_the_runtime_global() {
    let replaced = Some((4, 10, String::from("__webpack_require__.g"), Some(RuntimeGlobals::Global)));
    assert_eq!(content(replace_node_stuff("global", 4, 10, &options("mock", "mock", "true"), "")), replaced);
    assert_eq!(content(replace_node_stuff("global", 4, 10, &options("mock", "mock", "warn"), "")), replaced);
    assert_eq!(content(replace_node_stuff("global", 4, 10, &options("mock", "mock", "false"), "")), None);
    assert_eq!(content(replace_node_stuff("global", 4, 10, &options("mock", "mock", "mock"), "")), None);
    assert_eq!(RuntimeGlobals::Global.name(), "__webpack_require__.g");
}

#[test]
fn other_identifiers_stay() {
    assert_eq!(content(replace_node_stuff("require", 0, 7, &options("mock", "mock", "true"), "src")), None);
    assert_eq!(content(replace_node_stuff("__dirnames", 0, 7, &options("mock", "mock", "true"), "src")), None);
    assert_eq!(content(replace_node_stuff("", 0, 0, &options("true", "true", "true"), "src")), None);
}

#[test]
fn scan_works_out_the_relative_directory() {
    let outcome = scan_ident("__dirname", 5, 14, &options("true", "true", "true"), "/project/src/lib/a.js", "/project");
    assert_eq!(outcome.map(content), Ok(Some((5, 14, String::from("'src/lib'"), None))));
}

#[test]
fn scan_works_out_the_relative_file() {
    let outcome = scan_ident("__filename", 5, 15, &options("true", "true", "true"), "/project/src/lib/a.js", "/project");
    assert_eq!(outcome.map(content), Ok(Some((5, 15, String::from("'src/lib/a.js'"), None))));
}

#[test]
fn scan_needs_no_path_for_mocks_and_globals() {
    let mocked = scan_ident("__dirname", 0, 9, &options("mock", "true", "true"), "", "");
    assert_eq!(mocked.map(content), Ok(Some((0, 9, String::from("'/'"), None))));
    let global = scan_ident("global", 0, 6, &options("true", "true", "warn"), "", "");
    assert_eq!(
        global.map(content),
        Ok(Some((0, 6, String::from("__webpack_require__.g"), Some(RuntimeGlobals::Global))))
    );
    let other = scan_ident("process", 0, 7, &options("true", "true", "true"), "", "");
    assert_eq!(other.map(content), Ok(None));
}

#[test]
fn scan_reports_a_path_without_parent() {
    let outcome = scan_ident("__dirname", 0, 9, &options("true", "true", "true"), "/", "/project");
    assert_eq!(outcome.map(content), Err(NodeStuffError::NoParentDirectory));
}

#[test]
fn replacement_keeps_what_it_is_given() {
    let dependency = ReplaceConstDependency::new(2, 9, String::from("'x'"), Some(RuntimeGlobals::Global));
    assert_eq!(dependency.start, 2);
    assert_eq!(dependency.end, 9);
    assert_eq!(dependency.content, "'x'");
    assert_eq!(dependency.runtime_requirements, Some(RuntimeGlobals::Global));
}

#[test]
fn compose_dependency_starts_without_id() {
    let span = ErrorSpan { start: 4, end: 19 };
    let dependency = CssComposeDependency::new(String::from("./base.css"), Some(span));
    assert_eq!(dependency.id(), None);
    assert_eq!(dependency.request(), "./base.css");
    assert_eq!(dependency.user_request(), "./base.css");
    assert_eq!(dependency.span(), Some(&span));
    assert_eq!(*dependency.category(), DependencyCategory::CssCompose);
    assert_eq!(*dependency.dependency_type(), DependencyType::CssCompose);
}

#[test]
fn compose_dependency_takes_id_and_request() {
    let mut dependency = CssComposeDependency::new(String::from("./base.css"), None);
    dependency.set_id(Some(DependencyId(7)));
    dependency.set_request(String::from("./other.css"));
    assert_eq!(dependency.id(), Some(DependencyId(7)));
    assert_eq!(dependency.request(), "./other.css");
    assert_eq!(dependency.user_request(), "./other.css");
    assert_eq!(dependency.span(), None);
    assert_eq!(*dependency.dependency_type(), DependencyType::CssCompose);
    dependency.set_id(None);
    assert_eq!(dependency.id(), None);
    let copy = dependency.clone();
    assert_eq!(copy.request(), "./other.css");
}

#[test]
fn compose_dependency_generates_nothing() {
    let dependency = CssComposeDependency::new(String::from("./base.css"), None);
    let mut context = CodeGeneratableContext { runtime_requirements: vec![RuntimeGlobals::Global] };
    let result = dependency.generate(&mut context).unwrap();
    assert!(result.replacements.is_empty());
    assert_eq!(context.runtime_requirements, vec![RuntimeGlobals::Global]);
    assert!(CodeGeneratableResult::default().replacements.is_empty());
}

#[test]
fn js_module_keeps_its_parts() {
    let ast = Ast { top_level_mark: 3, unresolved_mark: 4 };
    let module = JsModule::new(&ast, ModuleIdentifier::new(12));
    assert_eq!(module.module_identifier(), ModuleIdentifier::new(12));
    assert_eq!(module.mark_info(), MarkInfo::new(3, 4));
    assert_eq!(module.mark_info().top_level_mark, 3);
    assert_eq!(module.mark_info().unresolved_mark, 4);
}
