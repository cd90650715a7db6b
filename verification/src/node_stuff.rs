//! Replacement of the identifiers that Node.js defines in every module
//! (`__dirname`, `__filename`, `global`) by constants.

use crate::dependency::{ReplaceConstDependency, RuntimeGlobals};
use std::path::Path;
use sugar_path::SugarPath;
use vstd::prelude::*;
use vstd::string::StringExecFns;
use vstd::utf8::encode_utf8;

verus! {

/// How each of the Node.js identifiers is to be treated. Each setting is one
/// of `"mock"`, `"warn-mock"`, `"true"`, `"warn"` and `"false"`.
#[derive(Debug)]
pub struct NodeOption {
    pub dirname: String,
    pub filename: String,
    pub global: String,
}

/// Why an identifier could not be replaced by the path it stands for.
#[derive(Clone, Copy, Debug, PartialEq, Eq, Structural)]
pub enum NodeStuffError {
    /// The module's path has no parent directory.
    NoParentDirectory,
    /// The path relative to the project's root directory could not be
    /// worked out.
    NoRelativePath,
}

/// A setting that asks for a fixed stand-in.
pub open spec fn is_mock(setting: Seq<char>) -> bool {
    setting == "mock"@ || setting == "warn-mock"@
}

/// A path as a string constant of the generated code.
pub open spec fn quoted(path: Seq<char>) -> Seq<char> {
    "'"@ + path + "'"@
}

/// Whether replacing `sym` under these settings takes the module's path
/// relative to the project's root directory.
pub open spec fn needs_relative_path(sym: Seq<char>, dirname: Seq<char>, filename: Seq<char>) -> bool {
    if sym == "__dirname"@ {
        !is_mock(dirname) && dirname == "true"@
    } else if sym == "__filename"@ {
        !is_mock(filename) && filename == "true"@
    } else {
        false
    }
}

/// The expression by which the identifier `sym` is replaced, and the runtime
/// facility that the expression needs; `None` when the identifier stays.
/// `relative` is the directory of the module for `__dirname` and the path of
/// the module for `__filename`, relative to the project's root directory.
pub open spec fn replacement_of(
    sym: Seq<char>,
    dirname: Seq<char>,
    filename: Seq<char>,
    global: Seq<char>,
    relative: Seq<char>,
) -> Option<(Seq<char>, Option<RuntimeGlobals>)> {
    if sym == "__dirname"@ {
        if is_mock(dirname) {
            Some((quoted("/"@), None))
        } else if dirname == "true"@ {
            Some((quoted(relative), None))
        } else {
            None
        }
    } else if sym == "__filename"@ {
        if is_mock(filename) {
            Some((quoted("/index.js"@), None))
        } else if filename == "true"@ {
            Some((quoted(relative), None))
        } else {
            None
        }
    } else if sym == "global"@ {
        if global == "true"@ || global == "warn"@ {
            Some((RuntimeGlobals::Global.name_view(), Some(RuntimeGlobals::Global)))
        } else {
            None
        }
    } else {
        None
    }
}

/// The replacement `dependency` puts `expected` in the range from `start` to
/// `end`.
pub open spec fn replaces_by(
    dependency: Option<ReplaceConstDependency>,
    start: u32,
    end: u32,
    expected: Option<(Seq<char>, Option<RuntimeGlobals>)>,
) -> bool {
    match expected {
        Some((content, runtime_requirements)) => dependency matches Some(d) && d.start == start && d.end
            == end && d.content@ == content && d.runtime_requirements == runtime_requirements,
        None => dependency is None,
    }
}

/// `Path::parent`, on paths given as strings: the path without its last
/// component, if it has one. Nothing is stated of the result.
#[verifier::external_body]
fn parent_directory(path: &str) -> (parent: Option<String>) {
    Path::new(path).parent().map(|p| p.to_string_lossy().to_string())
}

/// `SugarPath::try_relative`, on paths given as strings: the path that leads
/// from `base` to `path`, or `None` where the current directory would be
/// needed and cannot be had. Nothing is stated of the result: it depends on
/// the platform and may depend on the current directory.
#[verifier::external_body]
fn relative_path(path: &str, base: &str) -> (relative: Option<String>) {
    match Path::new(path).try_relative(base) {
        Ok(relative) => Some(relative.to_string_lossy().to_string()),
        Err(_) => None,
    }
}

/// Whether two strings hold the same characters.
pub fn str_eq(a: &str, b: &str) -> (same: bool)
    ensures
        same == (a@ == b@),
{
    let x = a.as_bytes();
    let y = b.as_bytes();
    proof {
        vstd::utf8::encode_utf8_decode_utf8(a@);
        vstd::utf8::encode_utf8_decode_utf8(b@);
        assert(x@ == encode_utf8(a@));
        assert(y@ == encode_utf8(b@));
    }
    if x.len() != y.len() {
        return false;
    }
    let mut i: usize = 0;
    while i < x.len()
        invariant
            i <= x@.len(),
            x@.len() == y@.len(),
            x@ == encode_utf8(a@),
            y@ == encode_utf8(b@),
            forall|j: int| 0 <= j < i ==> x@[j] == y@[j],
        decreases x@.len() - i,
    {
        if x[i] != y[i] {
            return false;
        }
        i += 1;
    }
    proof {
        assert(x@ =~= y@);
    }
    true
}

fn quote(path: &str) -> (content: String)
    ensures
        content@ == quoted(path@),
{
    let mut content = String::from_str("'");
    content.append(path);
    content.append("'");
    content
}

/// Decides what becomes of the identifier `sym`, found in the range from
/// `start` to `end`, once the relative path that it may stand for is known.
pub fn replace_node_stuff(sym: &str, start: u32, end: u32, node_option: &NodeOption, relative: &str) -> (dependency:
    Option<ReplaceConstDependency>)
    ensures
        replaces_by(
            dependency,
            start,
            end,
            replacement_of(
                sym@,
                node_option.dirname@,
                node_option.filename@,
                node_option.global@,
                relative@,
            ),
        ),
{
    if str_eq(sym, "__dirname") {
        let setting = node_option.dirname.as_str();
        if str_eq(setting, "mock") || str_eq(setting, "warn-mock") {
            Some(ReplaceConstDependency::new(start, end, quote("/"), None))
        } else if str_eq(setting, "true") {
            Some(ReplaceConstDependency::new(start, end, quote(relative), None))
        } else {
            None
        }
    } else if str_eq(sym, "__filename") {
        let setting = node_option.filename.as_str();
        if str_eq(setting, "mock") || str_eq(setting, "warn-mock") {
            Some(ReplaceConstDependency::new(start, end, quote("/index.js"), None))
        } else if str_eq(setting, "true") {
            Some(ReplaceConstDependency::new(start, end, quote(relative), None))
        } else {
            None
        }
    } else if str_eq(sym, "global") {
        let setting = node_option.global.as_str();
        if str_eq(setting, "true") || str_eq(setting, "warn") {
            Some(
                ReplaceConstDependency::new(
                    start,
                    end,
                    String::from_str(RuntimeGlobals::Global.name()),
                    Some(RuntimeGlobals::Global),
                ),
            )
        } else {
            None
        }
    } else {
        None
    }
}

fn takes_relative_path(sym: &str, node_option: &NodeOption) -> (needed: bool)
    ensures
        needed == needs_relative_path(sym@, node_option.dirname@, node_option.filename@),
{
    if str_eq(sym, "__dirname") {
        let setting = node_option.dirname.as_str();
        !(str_eq(setting, "mock") || str_eq(setting, "warn-mock")) && str_eq(setting, "true")
    } else if str_eq(sym, "__filename") {
        let setting = node_option.filename.as_str();
        !(str_eq(setting, "mock") || str_eq(setting, "warn-mock")) && str_eq(setting, "true")
    } else {
        false
    }
}

/// Decides what becomes of the identifier `sym` of the module at
/// `resource_path` in a project rooted at `context`. Where the identifier
/// stands for a path, the path is worked out relative to `context`; an error
/// is returned if that cannot be done.
pub fn scan_ident(
    sym: &str,
    start: u32,
    end: u32,
    node_option: &NodeOption,
    resource_path: &str,
    context: &str,
) -> (outcome: Result<Option<ReplaceConstDependency>, NodeStuffError>)
    ensures
        !needs_relative_path(sym@, node_option.dirname@, node_option.filename@) ==> outcome is Ok
            && replaces_by(
            outcome->Ok_0,
            start,
            end,
            replacement_of(
                sym@,
                node_option.dirname@,
                node_option.filename@,
                node_option.global@,
                Seq::empty(),
            ),
        ),
        needs_relative_path(sym@, node_option.dirname@, node_option.filename@) && outcome is Ok
            ==> exists|relative: Seq<char>|
            replaces_by(
                outcome->Ok_0,
                start,
                end,
                #[trigger] replacement_of(
                    sym@,
                    node_option.dirname@,
                    node_option.filename@,
                    node_option.global@,
                    relative,
                ),
            ),
        outcome is Err ==> needs_relative_path(sym@, node_option.dirname@, node_option.filename@),
        outcome == Err::<Option<ReplaceConstDependency>, NodeStuffError>(
            NodeStuffError::NoParentDirectory,
        ) ==> sym@ == "__dirname"@,
{
    if !takes_relative_path(sym, node_option) {
        let dependency = replace_node_stuff(sym, start, end, node_option, "");
        proof {
            reveal_strlit("");
            assert(""@ =~= Seq::<char>::empty());
        }
        return Ok(dependency);
    }
    let relative = if str_eq(sym, "__dirname") {
        match parent_directory(resource_path) {
            Some(parent) => relative_path(parent.as_str(), context),
            None => {
                return Err(NodeStuffError::NoParentDirectory);
            },
        }
    } else {
        relative_path(resource_path, context)
    };
    match relative {
        Some(relative) => {
            let dependency = replace_node_stuff(sym, start, end, node_option, relative.as_str());
            proof {
                let expected = replacement_of(
                    sym@,
                    node_option.dirname@,
                    node_option.filename@,
                    node_option.global@,
                    relative@,
                );
                assert(replaces_by(dependency, start, end, expected));
            }
            Ok(dependency)
        },
        None => Err(NodeStuffError::NoRelativePath),
    }
}

} // verus!
