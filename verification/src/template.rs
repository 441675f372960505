//! Templates and their materialization plans.
//!
//! A template string holds literal characters and `{{`…`}}` placeholders; a
//! placeholder is replaced by the value its key — the text between the
//! braces, with blanks around it ignored — is bound to in the variable
//! mapping, and rendering fails on an unterminated `{{` or an unbound key.

use vstd::prelude::*;
use vstd::string::StrSliceExecFns;
use vstd::string::StringExecFns;

use crate::errors::RenderError;
use crate::errors::RenderFailure;

verus! {

/// The value bound to `key` in the variable mapping; the first binding wins.
pub open spec fn lookup(vars: Seq<(String, String)>, key: Seq<char>) -> Option<Seq<char>>
    decreases vars.len(),
{
    if vars.len() == 0 {
        Option::None
    } else if vars[0].0@ == key {
        Option::Some(vars[0].1@)
    } else {
        lookup(vars.drop_first(), key)
    }
}

/// The position of the first `}}` at or after `from` in `text`.
pub open spec fn close_from(text: Seq<char>, from: int) -> Option<int>
    decreases text.len() - from,
{
    if from < 0 || from + 2 > text.len() {
        Option::None
    } else if text[from] == '}' && text[from + 1] == '}' {
        Option::Some(from)
    } else {
        close_from(text, from + 1)
    }
}

/// What `close_from` finds is the first closing brace pair: it is in range,
/// it closes, and no earlier position at or after `from` closes.
pub proof fn lemma_close_from(text: Seq<char>, from: int)
    requires
        0 <= from,
    ensures
        match close_from(text, from) {
            Option::Some(k) => {
                &&& from <= k && k + 2 <= text.len()
                &&& text[k] == '}' && text[k + 1] == '}'
                &&& forall|m: int|
                    from <= m < k ==> !((#[trigger] text[m]) == '}' && text[m + 1] == '}')
            },
            Option::None => forall|m: int|
                from <= m && m + 2 <= text.len() ==> !((#[trigger] text[m]) == '}' && text[m + 1]
                    == '}'),
        },
    decreases text.len() - from,
{
    if from + 2 <= text.len() && !(text[from] == '}' && text[from + 1] == '}') {
        lemma_close_from(text, from + 1);
    }
}

/// Whether a character is blank space inside a placeholder.
pub open spec fn is_blank(c: char) -> bool {
    c == ' ' || c == '\t'
}

/// `text` without its leading blanks.
pub open spec fn trim_leading(text: Seq<char>) -> Seq<char>
    decreases text.len(),
{
    if text.len() > 0 && is_blank(text[0]) {
        trim_leading(text.drop_first())
    } else {
        text
    }
}

/// `text` without its trailing blanks.
pub open spec fn trim_trailing(text: Seq<char>) -> Seq<char>
    decreases text.len(),
{
    if text.len() > 0 && is_blank(text.last()) {
        trim_trailing(text.drop_last())
    } else {
        text
    }
}

/// `text` without leading and trailing blanks: a placeholder key is the
/// text between the braces, trimmed.
pub open spec fn trimmed(text: Seq<char>) -> Seq<char> {
    trim_trailing(trim_leading(text))
}

/// What a template renders to: literal characters are copied, and each
/// `{{`…`}}` placeholder is replaced by the value its key — the text
/// between the braces, with blanks around it ignored — is bound to.
/// Rendering fails on a `{{` with no later `}}`, and on a key the mapping
/// does not bind.
pub open spec fn render_text(text: Seq<char>, vars: Seq<(String, String)>) -> Result<
    Seq<char>,
    RenderFailure,
>
    decreases text.len(),
    via render_text_decreases
{
    if text.len() >= 2 && text[0] == '{' && text[1] == '{' {
        let rest = text.skip(2);
        match close_from(rest, 0) {
            Option::Some(k) => {
                let key = trimmed(rest.take(k));
                match lookup(vars, key) {
                    Option::Some(value) => match render_text(rest.skip(k + 2), vars) {
                        Ok(tail) => Ok(value + tail),
                        Err(failure) => Err(failure),
                    },
                    Option::None => Err(RenderFailure::Undefined { key }),
                }
            },
            Option::None => Err(RenderFailure::Unterminated),
        }
    } else if text.len() == 0 {
        Ok(Seq::empty())
    } else {
        match render_text(text.drop_first(), vars) {
            Ok(tail) => Ok(seq![text[0]] + tail),
            Err(failure) => Err(failure),
        }
    }
}

#[via_fn]
proof fn render_text_decreases(text: Seq<char>, vars: Seq<(String, String)>) {
    if text.len() >= 2 && text[0] == '{' && text[1] == '{' {
        lemma_close_from(text.skip(2), 0);
    }
}

/// The first binding of `key` among the variables, if any.
fn lookup_var<'a>(vars: &'a Vec<(String, String)>, key: &String) -> (value: Option<&'a String>)
    ensures
        match value {
            Option::Some(v) => lookup(vars@, key@) == Option::Some(v@),
            Option::None => lookup(vars@, key@) is None,
        },
{
    proof {
        assert(vars@.skip(0) =~= vars@);
    }
    let mut i: usize = 0;
    while i < vars.len()
        invariant
            i <= vars@.len(),
            lookup(vars@, key@) == lookup(vars@.skip(i as int), key@),
        decreases vars@.len() - i,
    {
        proof {
            assert(vars@.skip(i as int).drop_first() =~= vars@.skip(i as int + 1));
            assert(vars@.skip(i as int)[0] == vars@[i as int]);
        }
        if vars[i].0 == *key {
            return Option::Some(&vars[i].1);
        }
        i += 1;
    }
    proof {
        assert(vars@.skip(vars@.len() as int) =~= Seq::<(String, String)>::empty());
    }
    Option::None
}

/// Whether the character is blank space inside a placeholder.
fn blank(c: char) -> (b: bool)
    ensures
        b == is_blank(c),
{
    c == ' ' || c == '\t'
}

/// The number of leading blanks of `raw`: dropping them trims the front.
fn leading_blanks(raw: &str) -> (count: usize)
    ensures
        count <= raw@.len(),
        trim_leading(raw@) == raw@.skip(count as int),
{
    let n = raw.unicode_len();
    proof {
        assert(raw@.skip(0) =~= raw@);
    }
    let mut start: usize = 0;
    while start < n
        invariant
            start <= n,
            n == raw@.len(),
            trim_leading(raw@) == trim_leading(raw@.skip(start as int)),
        decreases n - start,
    {
        let c = raw.get_char(start);
        proof {
            assert(raw@.skip(start as int)[0] == raw@[start as int]);
        }
        if !blank(c) {
            return start;
        }
        proof {
            assert(raw@.skip(start as int).drop_first() =~= raw@.skip(start as int + 1));
        }
        start += 1;
    }
    proof {
        assert(raw@.skip(n as int) =~= Seq::<char>::empty());
    }
    n
}

/// The key of a placeholder: the text between the braces with its leading
/// and trailing blanks dropped.
fn trim_key(raw: &str) -> (key: String)
    ensures
        key@ == trimmed(raw@),
{
    let n = raw.unicode_len();
    let start = leading_blanks(raw);
    proof {
        assert(raw@.skip(start as int) =~= raw@.subrange(start as int, n as int));
    }
    let mut end: usize = n;
    while end > start
        invariant
            start <= end <= n,
            n == raw@.len(),
            trim_leading(raw@) == raw@.skip(start as int),
            trim_trailing(raw@.skip(start as int)) == trim_trailing(
                raw@.subrange(start as int, end as int),
            ),
        decreases end,
    {
        let c = raw.get_char(end - 1);
        proof {
            assert(raw@.subrange(start as int, end as int).last() == raw@[end as int - 1]);
        }
        if !blank(c) {
            return raw.substring_char(start, end).to_owned();
        }
        proof {
            assert(raw@.subrange(start as int, end as int).drop_last() =~= raw@.subrange(
                start as int,
                end as int - 1,
            ));
        }
        end -= 1;
    }
    let key = String::new();
    proof {
        assert(raw@.subrange(start as int, start as int) =~= Seq::<char>::empty());
        assert(key@ =~= Seq::<char>::empty());
    }
    key
}

/// The position of the first `}}` in `text`, if any.
fn find_close(text: &str) -> (position: Option<usize>)
    ensures
        match position {
            Option::Some(k) => close_from(text@, 0) == Option::Some(k as int),
            Option::None => close_from(text@, 0) is None,
        },
{
    let n = text.unicode_len();
    if n < 2 {
        return Option::None;
    }
    let mut i: usize = 0;
    while i + 1 < n
        invariant
            n == text@.len(),
            i + 1 <= n,
            close_from(text@, 0) == close_from(text@, i as int),
        decreases n - i,
    {
        if text.get_char(i) == '}' && text.get_char(i + 1) == '}' {
            return Option::Some(i);
        }
        i += 1;
    }
    Option::None
}

/// Renders a template string against the variable mapping.
pub fn render(template: &str, vars: &Vec<(String, String)>) -> (rendered: Result<
    String,
    RenderError,
>)
    ensures
        match rendered {
            Ok(s) => render_text(template@, vars@) == Ok::<Seq<char>, RenderFailure>(s@),
            Err(e) => render_text(template@, vars@) == Err::<Seq<char>, RenderFailure>(e@),
        },
    decreases template@.len(),
{
    let n = template.unicode_len();
    if n >= 2 && template.get_char(0) == '{' && template.get_char(1) == '{' {
        let rest = template.substring_char(2, n);
        match find_close(rest) {
            Option::Some(k) => {
                proof {
                    lemma_close_from(rest@, 0);
                }
                let key = trim_key(rest.substring_char(0, k));
                match lookup_var(vars, &key) {
                    Option::Some(value) => {
                        let rest_len = rest.unicode_len();
                        let tail_template = rest.substring_char(k + 2, rest_len);
                        match render(tail_template, vars) {
                            Ok(tail) => {
                                let mut out = value.clone();
                                out.append(tail.as_str());
                                Ok(out)
                            },
                            Err(e) => Err(e),
                        }
                    },
                    Option::None => Err(RenderError::UndefinedPlaceholder { key }),
                }
            },
            Option::None => Err(RenderError::UnterminatedPlaceholder),
        }
    } else if n == 0 {
        let out = String::new();
        proof {
            assert(out@ =~= Seq::<char>::empty());
        }
        Ok(out)
    } else {
        let head = template.substring_char(0, 1);
        let tail_template = template.substring_char(1, n);
        match render(tail_template, vars) {
            Ok(tail) => {
                proof {
                    assert(template@.subrange(0, 1) =~= seq![template@[0]]);
                }
                let mut out = head.to_owned();
                out.append(tail.as_str());
                Ok(out)
            },
            Err(e) => Err(e),
        }
    }
}

/// A recipe for files and directories to create: a closed, two-variant
/// recursive structure. `name` and, for files, `contents` are template
/// strings, rendered against the variable mapping before use.
#[derive(Debug, PartialEq, Eq)]
pub enum Template {
    File { name: String, contents: String },
    Directory { name: String, contents: Vec<Template> },
}

/// A filesystem operation of a materialization plan, at the specification
/// level: a path is the sequence of rendered components below the plan root.
pub enum FsOpModel {
    CreateDir { path: Seq<Seq<char>> },
    WriteFile { path: Seq<Seq<char>>, contents: Seq<char> },
}

/// A filesystem operation of a materialization plan: create a directory
/// (with any missing ancestors) if absent, or write a file with the given
/// contents, overwriting a file already there.
#[derive(Debug, Clone, PartialEq, Eq)]
pub enum FsOp {
    CreateDir { path: Vec<String> },
    WriteFile { path: Vec<String>, contents: String },
}

impl View for FsOp {
    type V = FsOpModel;

    open spec fn view(&self) -> FsOpModel {
        match self {
            FsOp::CreateDir { path } => FsOpModel::CreateDir { path: path.deep_view() },
            FsOp::WriteFile { path, contents } => FsOpModel::WriteFile {
                path: path.deep_view(),
                contents: contents@,
            },
        }
    }
}

impl DeepView for FsOp {
    type V = FsOpModel;

    open spec fn deep_view(&self) -> FsOpModel {
        self.view()
    }
}

/// The plan that materializes one template node under the base directory
/// `base`: depth-first, pre-order, siblings in declaration order.
pub open spec fn plan_node(
    node: Template,
    base: Seq<Seq<char>>,
    vars: Seq<(String, String)>,
) -> Result<Seq<FsOpModel>, RenderFailure>
    decreases node,
{
    match node {
        Template::File { name, contents } => match render_text(name@, vars) {
            Ok(rendered_name) => match render_text(contents@, vars) {
                Ok(rendered_contents) => Ok(
                    seq![
                        FsOpModel::WriteFile {
                            path: base.push(rendered_name),
                            contents: rendered_contents,
                        },
                    ],
                ),
                Err(failure) => Err(failure),
            },
            Err(failure) => Err(failure),
        },
        Template::Directory { name, contents } => match render_text(name@, vars) {
            Ok(rendered_name) => {
                let dir = base.push(rendered_name);
                match plan_nodes(contents@, dir, vars) {
                    Ok(ops) => Ok(seq![FsOpModel::CreateDir { path: dir }] + ops),
                    Err(failure) => Err(failure),
                }
            },
            Err(failure) => Err(failure),
        },
    }
}

/// The plan that materializes a sequence of sibling nodes, in order.
pub open spec fn plan_nodes(
    nodes: Seq<Template>,
    base: Seq<Seq<char>>,
    vars: Seq<(String, String)>,
) -> Result<Seq<FsOpModel>, RenderFailure>
    decreases nodes,
{
    if nodes.len() == 0 {
        Ok(Seq::empty())
    } else {
        match plan_node(nodes[0], base, vars) {
            Ok(first) => match plan_nodes(nodes.drop_first(), base, vars) {
                Ok(rest) => Ok(first + rest),
                Err(failure) => Err(failure),
            },
            Err(failure) => Err(failure),
        }
    }
}

/// A copy of a path: the same sequence of components.
fn clone_path(path: &Vec<String>) -> (copy: Vec<String>)
    ensures
        copy.deep_view() == path.deep_view(),
{
    let mut copy: Vec<String> = Vec::new();
    let mut i: usize = 0;
    while i < path.len()
        invariant
            i <= path@.len(),
            copy@.len() == i,
            forall|j: int| 0 <= j < i ==> copy@[j]@ == path@[j]@,
        decreases path@.len() - i,
    {
        copy.push(path[i].clone());
        i += 1;
    }
    proof {
        assert(copy.deep_view() =~= path.deep_view());
    }
    copy
}

/// The operations that materialize every node in `nodes`, in order, under
/// the base directory `base`.
fn create_nodes(
    nodes: &Vec<Template>,
    base: &Vec<String>,
    vars: &Vec<(String, String)>,
) -> (ops: Result<Vec<FsOp>, RenderError>)
    ensures
        match ops {
            Ok(v) => plan_nodes(nodes@, base.deep_view(), vars@) == Ok::<
                Seq<FsOpModel>,
                RenderFailure,
            >(v.deep_view()),
            Err(e) => plan_nodes(nodes@, base.deep_view(), vars@) == Err::<
                Seq<FsOpModel>,
                RenderFailure,
            >(e@),
        },
    decreases *nodes,
{
    let mut ops: Vec<FsOp> = Vec::new();
    proof {
        assert(nodes@.skip(0) =~= nodes@);
        assert(ops.deep_view() =~= Seq::<FsOpModel>::empty());
        match plan_nodes(nodes@, base.deep_view(), vars@) {
            Ok(rest) => {
                assert(Seq::<FsOpModel>::empty() + rest =~= rest);
            },
            Err(_) => {},
        }
    }
    let mut i: usize = 0;
    while i < nodes.len()
        invariant
            i <= nodes@.len(),
            match plan_nodes(nodes@.skip(i as int), base.deep_view(), vars@) {
                Ok(rest) => plan_nodes(nodes@, base.deep_view(), vars@) == Ok::<
                    Seq<FsOpModel>,
                    RenderFailure,
                >(ops.deep_view() + rest),
                Err(failure) => plan_nodes(nodes@, base.deep_view(), vars@) == Err::<
                    Seq<FsOpModel>,
                    RenderFailure,
                >(failure),
            },
        decreases nodes@.len() - i,
    {
        proof {
            assert(nodes@.skip(i as int)[0] == nodes@[i as int]);
            assert(nodes@.skip(i as int).drop_first() =~= nodes@.skip(i as int + 1));
        }
        match nodes[i].create(base, vars) {
            Ok(mut child_ops) => {
                let ghost pre = ops.deep_view();
                let ghost child_model = child_ops.deep_view();
                ops.append(&mut child_ops);
                proof {
                    assert(ops.deep_view() =~= pre + child_model);
                    match plan_nodes(nodes@.skip(i as int + 1), base.deep_view(), vars@) {
                        Ok(rest) => {
                            assert(pre + (child_model + rest) =~= ops.deep_view() + rest);
                        },
                        Err(_) => {},
                    }
                }
            },
            Err(e) => {
                return Err(e);
            },
        }
        i += 1;
    }
    proof {
        assert(nodes@.skip(nodes@.len() as int) =~= Seq::<Template>::empty());
        match plan_nodes(nodes@, base.deep_view(), vars@) {
            Ok(_) => {
                assert(ops.deep_view() + Seq::<FsOpModel>::empty() =~= ops.deep_view());
            },
            Err(_) => {},
        }
    }
    Ok(ops)
}

impl Template {
    /// The operations that materialize this node under the base directory
    /// `base`: depth-first, pre-order, siblings in declaration order. The
    /// first operation creates this node itself; every path extends `base`
    /// with rendered names. Nothing is touched here: the plan says what to
    /// create.
    pub fn create(&self, base: &Vec<String>, vars: &Vec<(String, String)>) -> (ops: Result<
        Vec<FsOp>,
        RenderError,
    >)
        ensures
            match ops {
                Ok(v) => plan_node(*self, base.deep_view(), vars@) == Ok::<
                    Seq<FsOpModel>,
                    RenderFailure,
                >(v.deep_view()),
                Err(e) => plan_node(*self, base.deep_view(), vars@) == Err::<
                    Seq<FsOpModel>,
                    RenderFailure,
                >(e@),
            },
        decreases *self,
    {
        match self {
            Template::File { name, contents } => {
                let rendered_name = match render(name.as_str(), vars) {
                    Ok(s) => s,
                    Err(e) => {
                        return Err(e);
                    },
                };
                let rendered_contents = match render(contents.as_str(), vars) {
                    Ok(s) => s,
                    Err(e) => {
                        return Err(e);
                    },
                };
                let ghost rendered_name_model = rendered_name@;
                let ghost rendered_contents_model = rendered_contents@;
                let mut path = clone_path(base);
                path.push(rendered_name);
                let ghost op_path = path.deep_view();
                proof {
                    assert(op_path =~= base.deep_view().push(rendered_name_model));
                }
                let mut ops: Vec<FsOp> = Vec::new();
                ops.push(FsOp::WriteFile { path, contents: rendered_contents });
                proof {
                    assert(ops.deep_view() =~= seq![
                        FsOpModel::WriteFile {
                            path: op_path,
                            contents: rendered_contents_model,
                        },
                    ]);
                }
                Ok(ops)
            },
            Template::Directory { name, contents } => {
                let rendered_name = match render(name.as_str(), vars) {
                    Ok(s) => s,
                    Err(e) => {
                        return Err(e);
                    },
                };
                let ghost rendered_name_model = rendered_name@;
                let mut dir_path = clone_path(base);
                dir_path.push(rendered_name);
                let ghost dir_model = dir_path.deep_view();
                proof {
                    assert(dir_model =~= base.deep_view().push(rendered_name_model));
                }
                let mut ops: Vec<FsOp> = Vec::new();
                ops.push(FsOp::CreateDir { path: clone_path(&dir_path) });
                proof {
                    assert(ops.deep_view() =~= seq![FsOpModel::CreateDir { path: dir_model }]);
                }
                match create_nodes(contents, &dir_path, vars) {
                    Ok(mut child_ops) => {
                        let ghost child_model = child_ops.deep_view();
                        ops.append(&mut child_ops);
                        proof {
                            assert(ops.deep_view() =~= seq![
                                FsOpModel::CreateDir { path: dir_model },
                            ] + child_model);
                        }
                        Ok(ops)
                    },
                    Err(e) => Err(e),
                }
            },
        }
    }
}

/// The top-level artifact loaded from a named template definition: the list
/// of top-level nodes to materialize relative to the new project's root.
#[derive(Debug, PartialEq, Eq)]
pub struct TemplateSet {
    pub nodes: Vec<Template>,
}

impl TemplateSet {
    /// The plan that materializes the whole set under `base`.
    pub open spec fn spec_plan(
        self,
        base: Seq<Seq<char>>,
        vars: Seq<(String, String)>,
    ) -> Result<Seq<FsOpModel>, RenderFailure> {
        plan_nodes(self.nodes@, base, vars)
    }

    /// The operations that materialize every node of the set, in order,
    /// under the base directory `base`.
    pub fn create(&self, base: &Vec<String>, vars: &Vec<(String, String)>) -> (ops: Result<
        Vec<FsOp>,
        RenderError,
    >)
        ensures
            match ops {
                Ok(v) => self.spec_plan(base.deep_view(), vars@) == Ok::<
                    Seq<FsOpModel>,
                    RenderFailure,
                >(v.deep_view()),
                Err(e) => self.spec_plan(base.deep_view(), vars@) == Err::<
                    Seq<FsOpModel>,
                    RenderFailure,
                >(e@),
            },
    {
        create_nodes(&self.nodes, base, vars)
    }
}

/// Law: materialization is deterministic. The plan is a function of the
/// template set, the base directory and the variable mapping alone, so two
/// materializations of the same set with the same variables produce
/// identical operations — the same paths with the same bytes.
pub proof fn lemma_materialization_deterministic(
    set: TemplateSet,
    base: Seq<Seq<char>>,
    vars: Seq<(String, String)>,
    first: Seq<FsOpModel>,
    second: Seq<FsOpModel>,
)
    requires
        set.spec_plan(base, vars) == Ok::<Seq<FsOpModel>, RenderFailure>(first),
        set.spec_plan(base, vars) == Ok::<Seq<FsOpModel>, RenderFailure>(second),
    ensures
        first == second,
{
}

} // verus!
