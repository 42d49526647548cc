//! Loading a configuration: reading, parsing, splicing in of included
//! files, folding of the top-level values, and resolution.

use crate::hocon::error::{ConfigError, ConfigErrorView};
use crate::hocon::grammar::{document, parse_document};
use crate::hocon::includes::{
    lemma_array_names_no_file, lemma_declared_all_names_no_file, lemma_declared_names_no_file,
    lemma_directive_names_file, lemma_merged_names_no_file, lemma_object_names_no_file,
    lemma_resolved_names_no_file, spliced,
};
use crate::hocon::merge::{declare, declare_all, declared, declared_all};
use crate::hocon::resolve::{pass_fails, pass_returns, substituted, Environment, Variables};
use crate::hocon::value::{
    lemma_array_view, lemma_object_view, member_views, views, ConfigValue, Members, ValueView,
};
use crate::hocon::wellformed::{lemma_array_wf, lemma_declared_all_wf, lemma_object_wf};
use crate::parse_error::ParseErrorView;
use crate::text::{chars_of, push_text, string_of};
use vstd::prelude::*;

verus! {

/// The capability to read a file by its name.
pub trait FileReader {
    /// Appends the contents of the file called `filename` to `text`.
    fn read_to_string(&mut self, filename: &str, text: &mut String) -> (r: Result<
        (),
        ConfigError,
    >);
}

/// A reader that knows a fixed set of files by name and content.
#[derive(Debug)]
pub struct MemoryFileReader {
    pub files: Vec<(String, String)>,
}

/// The content of the first file from `from` on whose name is `name`.
pub open spec fn file_content(files: Seq<(String, String)>, name: Seq<char>, from: int) -> Option<
    Seq<char>,
>
    decreases files.len() - from,
{
    if from < 0 || from >= files.len() {
        None
    } else if files[from].0@ == name {
        Some(files[from].1@)
    } else {
        file_content(files, name, from + 1)
    }
}

impl MemoryFileReader {
    /// A reader that knows no file.
    pub fn new() -> (r: Self)
        ensures
            r.files@.len() == 0,
    {
        MemoryFileReader { files: Vec::new() }
    }

    /// Makes the reader know a file.
    pub fn add(&mut self, name: String, content: String)
        ensures
            final(self).files@ == old(self).files@.push((name, content)),
    {
        self.files.push((name, content));
    }
}

impl FileReader for MemoryFileReader {
    fn read_to_string(&mut self, filename: &str, text: &mut String) -> (r: Result<
        (),
        ConfigError,
    >)
        ensures
            final(self).files@ == old(self).files@,
            match file_content(old(self).files@, filename@, 0) {
                Some(content) => r is Ok && final(text)@ == old(text)@ + content,
                None => final(text)@ == old(text)@ && r is Err && r->Err_0@
                    == ConfigErrorView::FileNotFoundError,
            },
    {
        let chars = chars_of(filename);
        let name = string_of(chars.as_slice());
        let mut i: usize = 0;
        while i < self.files.len()
            invariant
                i <= self.files@.len(),
                name@ == filename@,
                self.files@ == old(self).files@,
                text@ == old(text)@,
                file_content(self.files@, filename@, 0) == file_content(
                    self.files@,
                    filename@,
                    i as int,
                ),
            decreases self.files@.len() - i,
        {
            if self.files[i].0 == name {
                push_text(text, self.files[i].1.as_str());
                return Ok(());
            }
            i += 1;
        }
        Err(ConfigError::FileNotFoundError)
    }
}

/// The first `n` of `values` folded from the left, each value the fallback
/// of those before it.
pub open spec fn folded(values: Seq<ValueView>, n: nat) -> ValueView
    decreases n,
{
    if n == 0 || n > values.len() {
        ValueView::Null
    } else if n == 1 {
        values[0]
    } else {
        folded(values, (n - 1) as nat).merged(values[n - 1])
    }
}

/// The error that a text which the grammar rejects gives.
pub open spec fn rejected(e: ParseErrorView) -> ConfigErrorView {
    ConfigErrorView::ParseError(e.display())
}

/// What a text without files to include gives: its top-level values are
/// folded, each the fallback of those before it, and the result is resolved.
pub open spec fn loaded(text: Seq<char>, vars: Variables) -> Result<ValueView, ConfigErrorView> {
    match document(text) {
        Ok(values) => {
            let root = folded(values, values.len());
            root.resolved(vars, root.pass_bound())
        },
        Err(e) => Err(rejected(e)),
    }
}

/// Whether the text names a file to include.
pub open spec fn names_files(text: Seq<char>) -> bool {
    document(text) matches Ok(values) && exists|i: int|
        0 <= i < values.len() && (#[trigger] values[i]).has_include()
}

/// A text one of whose top-level values names a file names files.
pub proof fn lemma_names_files(text: Seq<char>, values: Seq<ValueView>, i: int)
    requires
        document(text) == Ok::<Seq<ValueView>, ParseErrorView>(values),
        0 <= i < values.len(),
        values[i].has_include(),
    ensures
        names_files(text),
{
    let found = document(text)->Ok_0;
    assert(found == values);
    assert(0 <= i < found.len() && found[i].has_include());
}

/// How deep included files may include others.
pub const MAX_INCLUDE_DEPTH: usize = 16;

/// The error for files that include each other more deeply than the depth allows.
pub open spec fn too_deep() -> ConfigErrorView {
    ConfigErrorView::ParseError("files are included too deeply"@)
}

/// With no depth left, no file is read: what names a file is refused with
/// the error for files that are included too deeply.
pub open spec fn refused_at_bottom<T>(
    depth: usize,
    names_file: bool,
    r: Result<T, ConfigError>,
) -> bool {
    depth == 0 && names_file ==> r is Err && r->Err_0@ == too_deep()
}

/// The content of what a load returns.
pub open spec fn root_view(r: Result<ConfigValue, ConfigError>) -> Result<
    ValueView,
    ConfigErrorView,
> {
    match r {
        Ok(root) => Ok(root@),
        Err(e) => Err(e@),
    }
}

/// `r` is what loading `text` gives when files may be included `depth` deep.
/// A text that names no file gives what [`loaded`] says, whatever the
/// depth. A text that names a file is refused where there is no depth
/// left; else the outcome lies with what the reader hands over. A root that
/// comes back holds no reference and no directive, and none of its objects
/// has a key twice.
pub open spec fn loads(
    text: Seq<char>,
    vars: Variables,
    depth: usize,
    r: Result<ValueView, ConfigErrorView>,
) -> bool {
    &&& !names_files(text) ==> r == loaded(text, vars)
    &&& names_files(text) && depth == 0 ==> r == Err::<ValueView, ConfigErrorView>(too_deep())
    &&& r matches Ok(root) ==> root.references() == 0 && !root.has_include() && root.wf()
}

/// The error for files that include each other too deeply.
fn too_deep_error() -> (r: ConfigError)
    ensures
        r@ == too_deep(),
{
    let mut message = String::new();
    push_text(&mut message, "files are included too deeply");
    ConfigError::ParseError(message)
}

/// A configuration that has been loaded.
#[derive(Debug)]
pub struct Config {
    pub config: ConfigValue,
}

/// The content of what a load returns as a configuration.
pub open spec fn config_view(r: Result<Config, ConfigError>) -> Result<ValueView, ConfigErrorView> {
    match r {
        Ok(config) => Ok(config.config@),
        Err(e) => Err(e@),
    }
}

/// Makes configurations out of files and texts.
pub struct ConfigFactory<R: FileReader> {
    pub file_reader: R,
}

fn expand_items<R: FileReader>(
    items: &Vec<ConfigValue>,
    reader: &mut R,
    env: &Environment,
    depth: usize,
) -> (r: Result<Vec<ConfigValue>, ConfigError>)
    ensures
        match r {
            Ok(done) => done@.len() == items@.len() && forall|i: int|
                0 <= i < items@.len() ==> spliced(items@[i]@, #[trigger] done@[i]@),
            Err(_) => exists|i: int| 0 <= i < items@.len() && (#[trigger] items@[i]@).has_include(),
        },
        refused_at_bottom(
            depth,
            exists|i: int| 0 <= i < items@.len() && (#[trigger] items@[i]@).has_include(),
            r,
        ),
    decreases depth, 0nat, items,
{
    let mut out: Vec<ConfigValue> = Vec::new();
    let mut i: usize = 0;
    while i < items.len()
        invariant
            i <= items.len(),
            out@.len() == i,
            forall|j: int| 0 <= j < i ==> spliced(items@[j]@, #[trigger] out@[j]@),
            depth == 0 ==> forall|j: int| 0 <= j < i ==> !(#[trigger] items@[j]@).has_include(),
        decreases items.len() - i,
    {
        match expand(&items[i], reader, env, depth) {
            Ok(v) => {
                out.push(v);
            },
            Err(e) => {
                assert(items@[i as int]@.has_include());
                return Err(e);
            },
        }
        i += 1;
    }
    Ok(out)
}

fn expand_members<R: FileReader>(
    members: &Vec<(String, ConfigValue)>,
    reader: &mut R,
    env: &Environment,
    depth: usize,
) -> (r: Result<Vec<(String, ConfigValue)>, ConfigError>)
    ensures
        match r {
            Ok(done) => done@.len() == members@.len() && forall|i: int|
                0 <= i < members@.len() ==> (#[trigger] done@[i]).0@ == members@[i].0@ && spliced(
                    members@[i].1@,
                    done@[i].1@,
                ),
            Err(_) => exists|i: int|
                0 <= i < members@.len() && (#[trigger] members@[i]).1@.has_include(),
        },
        refused_at_bottom(
            depth,
            exists|i: int| 0 <= i < members@.len() && (#[trigger] members@[i]).1@.has_include(),
            r,
        ),
    decreases depth, 0nat, members,
{
    let mut out: Vec<(String, ConfigValue)> = Vec::new();
    let mut i: usize = 0;
    while i < members.len()
        invariant
            i <= members.len(),
            out@.len() == i,
            depth == 0 ==> forall|j: int|
                0 <= j < i ==> !(#[trigger] members@[j]).1@.has_include(),
            forall|j: int|
                0 <= j < i ==> (#[trigger] out@[j]).0@ == members@[j].0@ && spliced(
                    members@[j].1@,
                    out@[j].1@,
                ),
        decreases members.len() - i,
    {
        match expand(&members[i].1, reader, env, depth) {
            Ok(v) => {
                out.push((members[i].0.clone(), v));
            },
            Err(e) => {
                assert(members@[i as int].1@.has_include());
                return Err(e);
            },
        }
        i += 1;
    }
    Ok(out)
}

/// Whether one of the members is a directive: a member whose visible value
/// names a file.
fn any_directive(members: &Vec<(String, ConfigValue)>) -> (r: bool)
    ensures
        r ==> exists|i: int| 0 <= i < members@.len() && (#[trigger] members@[i]).1@.has_include(),
        r == exists|i: int| 0 <= i < members@.len() && (#[trigger] members@[i]).1@.latest() is Include,
{
    let mut i: usize = 0;
    while i < members.len()
        invariant
            i <= members.len(),
            forall|j: int| 0 <= j < i ==> !((#[trigger] members@[j]).1@.latest() is Include),
        decreases members.len() - i,
    {
        match members[i].1.latest() {
            ConfigValue::Include(_) => {
                proof {
                    lemma_directive_names_file(members@[i as int].1@);
                }
                return true;
            },
            _ => {},
        }
        i += 1;
    }
    false
}

/// Whether `with` can stand for the value `held` of a member once the files
/// are spliced in: for a directive, the root of its file, which names no
/// file and is well-formed; for any other value, that value with its own
/// files spliced in.
pub open spec fn stands_for(held: ValueView, with: ValueView) -> bool {
    if held.latest() is Include {
        !with.has_include() && with.wf()
    } else {
        spliced(held, with)
    }
}

/// `acc` after `member` is declared with `with` standing for its value:
/// where the member is a directive and `with` is an object, the members of
/// `with` are declared in its place; else `with` is declared under the key
/// of the member.
pub open spec fn inlined(acc: Members, member: (Seq<char>, ValueView), with: ValueView) -> Members {
    if member.1.latest() is Include {
        match with {
            ValueView::Object(news) => declared_all(acc, news, news.len()),
            _ => declared(acc, member.0, with),
        }
    } else {
        declared(acc, member.0, with)
    }
}

/// The members that the first `n` of `given` declare, one after the other,
/// with `with[i]` standing for the value of the `i`-th of them.
pub open spec fn inlined_all(given: Members, with: Seq<ValueView>, n: nat) -> Members
    decreases n,
{
    if n == 0 || n > given.len() || n > with.len() {
        Seq::empty()
    } else {
        inlined(inlined_all(given, with, (n - 1) as nat), given[n - 1], with[n - 1])
    }
}

/// What the first `n` members declare depends on the first `n` values that
/// stand for them, and on no more.
pub proof fn lemma_inlined_all_prefix(given: Members, with: Seq<ValueView>, more: ValueView, n: nat)
    requires
        n <= with.len(),
        n <= given.len(),
    ensures
        inlined_all(given, with.push(more), n) == inlined_all(given, with, n),
    decreases n,
{
    if n > 0 {
        lemma_inlined_all_prefix(given, with, more, (n - 1) as nat);
        assert(with.push(more)[n - 1] == with[n - 1]);
    }
}

/// The members of an object, with the files spliced in: the members are
/// declared anew in their order, and where a directive stands, the members
/// of the root of its file are declared in its place. The root of a file
/// that is no object is declared under the key of the directive. Where no
/// member names a file, no file is read and there is no error.
fn inline_members<R: FileReader>(
    members: &Vec<(String, ConfigValue)>,
    reader: &mut R,
    env: &Environment,
    depth: usize,
) -> (r: Result<Vec<(String, ConfigValue)>, ConfigError>)
    ensures
        !ValueView::Object(member_views(members@)).has_include() ==> r is Ok,
        refused_at_bottom(depth, ValueView::Object(member_views(members@)).has_include(), r),
        r matches Ok(done) ==> {
            &&& exists|with: Seq<ValueView>|
                {
                    &&& with.len() == members@.len()
                    &&& forall|k: int|
                        0 <= k < with.len() ==> stands_for(
                            member_views(members@)[k].1,
                            #[trigger] with[k],
                        )
                    &&& member_views(done@) == #[trigger] inlined_all(
                        member_views(members@),
                        with,
                        members@.len(),
                    )
                }
            &&& !ValueView::Object(member_views(done@)).has_include()
            &&& ValueView::Object(member_views(members@)).wf() ==> ValueView::Object(
                member_views(done@),
            ).wf()
        },
    decreases depth, 0nat, members,
{
    let ghost given = member_views(members@);
    let ghost mut with: Seq<ValueView> = Seq::empty();
    let mut out: Vec<(String, ConfigValue)> = Vec::new();
    let mut i: usize = 0;
    proof {
        assert(member_views(out@) =~= Seq::<(Seq<char>, ValueView)>::empty());
        lemma_object_names_no_file(member_views(out@));
        lemma_object_wf(member_views(out@));
        lemma_object_wf(given);
    }
    while i < members.len()
        invariant
            i <= members.len(),
            given == member_views(members@),
            with.len() == i,
            depth == 0 ==> forall|k: int| 0 <= k < i ==> !(#[trigger] given[k]).1.has_include(),
            forall|k: int| 0 <= k < i ==> stands_for(given[k].1, #[trigger] with[k]),
            member_views(out@) == inlined_all(given, with, i as nat),
            !ValueView::Object(member_views(out@)).has_include(),
            ValueView::Object(given).wf() ==> ValueView::Object(member_views(out@)).wf(),
            ValueView::Object(given).wf() ==> forall|k: int|
                0 <= k < given.len() ==> (#[trigger] given[k]).1.wf(),
        decreases members.len() - i,
    {
        let ghost held = member_views(out@);
        let ghost before = with;
        assert(given[i as int].1 == members@[i as int].1@);
        match members[i].1.latest() {
            ConfigValue::Include(name) => {
                proof {
                    lemma_directive_names_file(given[i as int].1);
                    lemma_object_names_no_file(given);
                }
                if depth == 0 {
                    return Err(too_deep_error());
                }
                let mut text = String::new();
                match reader.read_to_string(name.as_str(), &mut text) {
                    Ok(()) => {},
                    Err(e) => {
                        return Err(e);
                    },
                }
                let root = match load_text(text.as_str(), reader, env, depth - 1) {
                    Ok(root) => root,
                    Err(e) => {
                        return Err(e);
                    },
                };
                proof {
                    with = with.push(root@);
                    lemma_inlined_all_prefix(given, before, root@, i as nat);
                }
                match root {
                    ConfigValue::Object(inlined) => {
                        proof {
                            lemma_object_view(inlined);
                            let news = member_views(inlined@);
                            lemma_object_names_no_file(held);
                            lemma_object_names_no_file(news);
                            lemma_declared_all_names_no_file(held, news, news.len());
                            lemma_object_names_no_file(declared_all(held, news, news.len()));
                            if ValueView::Object(given).wf() {
                                lemma_object_wf(held);
                                lemma_object_wf(news);
                                lemma_declared_all_wf(held, news, news.len());
                                lemma_object_wf(declared_all(held, news, news.len()));
                            }
                        }
                        declare_all(&mut out, &inlined);
                    },
                    other => {
                        proof {
                            lemma_object_names_no_file(held);
                            lemma_declared_names_no_file(held, members@[i as int].0@, other@);
                            lemma_object_names_no_file(
                                declared(held, members@[i as int].0@, other@),
                            );
                        }
                        declare(&mut out, members[i].0.clone(), other);
                    },
                }
            },
            _ => {
                let v = match expand(&members[i].1, reader, env, depth) {
                    Ok(v) => v,
                    Err(e) => {
                        proof {
                            lemma_object_names_no_file(given);
                        }
                        return Err(e);
                    },
                };
                proof {
                    with = with.push(v@);
                    lemma_inlined_all_prefix(given, before, v@, i as nat);
                    lemma_object_names_no_file(held);
                    lemma_declared_names_no_file(held, members@[i as int].0@, v@);
                    lemma_object_names_no_file(declared(held, members@[i as int].0@, v@));
                }
                declare(&mut out, members[i].0.clone(), v);
            },
        }
        i += 1;
    }
    proof {
        lemma_object_names_no_file(given);
    }
    Ok(out)
}

/// Splices the files that `value` names into it. Each file is loaded as a
/// configuration of its own. Where the directive is a member of an object,
/// the members of the root of the file are declared in its place; anywhere
/// else the root takes the place of the directive. Without a file to
/// include, the value comes back as it is, and there is no error. A file
/// may include others `depth - 1` deep; with no depth left, no file is read
/// and a value that names one is refused.
pub fn expand<R: FileReader>(
    value: &ConfigValue,
    reader: &mut R,
    env: &Environment,
    depth: usize,
) -> (r: Result<ConfigValue, ConfigError>)
    ensures
        match r {
            Ok(done) => spliced(value@, done@),
            Err(_) => value@.has_include(),
        },
        refused_at_bottom(depth, value@.has_include(), r),
    decreases depth, 0nat, value,
{
    match value {
        ConfigValue::Include(name) => {
            if depth == 0 {
                return Err(too_deep_error());
            }
            let mut text = String::new();
            match reader.read_to_string(name.as_str(), &mut text) {
                Ok(()) => load_text(text.as_str(), reader, env, depth - 1),
                Err(e) => Err(e),
            }
        },
        ConfigValue::Array(items) => {
            proof {
                lemma_array_view(*items);
                lemma_array_names_no_file(views(items@));
            }
            match expand_items(items, reader, env, depth) {
                Ok(done) => {
                    proof {
                        if depth == 0 {
                            assert forall|i: int| 0 <= i < items@.len() implies !(#[trigger] views(
                                items@,
                            )[i]).has_include() by {
                                if items@[i]@.has_include() {
                                    assert(exists|j: int|
                                        0 <= j < items@.len() && (#[trigger] items@[j]@).has_include());
                                }
                            }
                        }
                        lemma_array_view(done);
                        lemma_array_names_no_file(views(done@));
                        lemma_array_wf(views(items@));
                        lemma_array_wf(views(done@));
                        if value@.wf() {
                            assert forall|i: int| 0 <= i < done@.len() implies (#[trigger] views(
                                done@,
                            )[i]).wf() by {
                                assert(views(items@)[i].wf());
                                assert(spliced(items@[i]@, done@[i]@));
                            }
                        }
                        assert forall|i: int| 0 <= i < done@.len() implies !(#[trigger] views(
                            done@,
                        )[i]).has_include() by {
                            assert(spliced(items@[i]@, done@[i]@));
                        }
                        if !value@.has_include() {
                            assert(value@ == ValueView::Array(views(items@)));
                            lemma_array_names_no_file(views(items@));
                            assert forall|i: int| 0 <= i < done@.len() implies views(done@)[i]
                                == views(items@)[i] by {
                                assert(!views(items@)[i].has_include());
                                assert(spliced(items@[i]@, done@[i]@));
                            }
                            assert(views(done@) =~= views(items@));
                        }
                    }
                    Ok(ConfigValue::Array(done))
                },
                Err(e) => {
                    proof {
                        let i = choose|i: int|
                            0 <= i < items@.len() && (#[trigger] items@[i]@).has_include();
                        assert(views(items@)[i].has_include());
                        lemma_array_names_no_file(views(items@));
                    }
                    Err(e)
                },
            }
        },
        ConfigValue::Object(members) => {
            proof {
                lemma_object_view(*members);
                lemma_object_names_no_file(member_views(members@));
            }
            if any_directive(members) {
                proof {
                    let i = choose|i: int|
                        0 <= i < members@.len() && (#[trigger] members@[i]).1@.has_include();
                    assert(member_views(members@)[i].1.has_include());
                }
                return match inline_members(members, reader, env, depth) {
                    Ok(done) => Ok(ConfigValue::of_object(done)),
                    Err(e) => Err(e),
                };
            }
            match expand_members(members, reader, env, depth) {
                Ok(done) => {
                    proof {
                        if depth == 0 {
                            assert forall|i: int| 0 <= i < members@.len() implies !(#[trigger] member_views(
                                members@,
                            )[i]).1.has_include() by {
                                if members@[i].1@.has_include() {
                                    assert(exists|j: int|
                                        0 <= j < members@.len() && (#[trigger] members@[j]).1@.has_include());
                                }
                            }
                        }
                        lemma_object_view(done);
                        lemma_object_names_no_file(member_views(done@));
                        lemma_object_wf(member_views(members@));
                        lemma_object_wf(member_views(done@));
                        if value@.wf() {
                            assert forall|i: int| 0 <= i < done@.len() implies (#[trigger] member_views(
                                done@,
                            )[i]).1.wf() by {
                                assert(member_views(members@)[i].1.wf());
                                assert(done@[i].0@ == members@[i].0@);
                            }
                            assert forall|i: int, j: int| 0 <= i < j < done@.len() implies (#[trigger] member_views(
                                done@,
                            )[i]).0 != (#[trigger] member_views(done@)[j]).0 by {
                                assert(done@[i].0@ == members@[i].0@);
                                assert(done@[j].0@ == members@[j].0@);
                                assert(member_views(members@)[i].0 != member_views(members@)[j].0);
                            }
                        }
                        assert forall|i: int| 0 <= i < done@.len() implies !(#[trigger] member_views(
                            done@,
                        )[i]).1.has_include() by {
                            assert(done@[i].0@ == members@[i].0@);
                        }
                        if !value@.has_include() {
                            assert(value@ == ValueView::Object(member_views(members@)));
                            lemma_object_names_no_file(member_views(members@));
                            assert forall|i: int| 0 <= i < done@.len() implies member_views(
                                done@,
                            )[i] == member_views(members@)[i] by {
                                assert(!member_views(members@)[i].1.has_include());
                                assert(done@[i].0@ == members@[i].0@);
                            }
                            assert(member_views(done@) =~= member_views(members@));
                        }
                    }
                    Ok(ConfigValue::Object(done))
                },
                Err(e) => {
                    proof {
                        let i = choose|i: int|
                            0 <= i < members@.len() && (#[trigger] members@[i]).1@.has_include();
                        assert(member_views(members@)[i].1.has_include());
                        lemma_object_names_no_file(member_views(members@));
                    }
                    Err(e)
                },
            }
        },
        ConfigValue::Reference { prev, path, missing } => {
            let displaced = match prev {
                Some(p) => match expand(&**p, reader, env, depth) {
                    Ok(done) => Some(Box::new(done)),
                    Err(e) => {
                        return Err(e);
                    },
                },
                None => None,
            };
            Ok(ConfigValue::Reference { prev: displaced, path: path.clone(), missing: *missing })
        },
        ConfigValue::Link { prev, value: head } => {
            let older = match expand(&**prev, reader, env, depth) {
                Ok(done) => done,
                Err(e) => {
                    return Err(e);
                },
            };
            let newer = match expand(&**head, reader, env, depth) {
                Ok(done) => done,
                Err(e) => {
                    return Err(e);
                },
            };
            Ok(ConfigValue::Link { prev: Box::new(older), value: Box::new(newer) })
        },
        other => Ok(other.clone()),
    }
}

/// The root value of the configuration that `text` holds: the text is
/// parsed, the files that it names are spliced in, its top-level values
/// are folded, each the fallback of those before it, and the result is
/// resolved. Files may be included `depth` deep.
pub fn load_text<R: FileReader>(
    text: &str,
    reader: &mut R,
    env: &Environment,
    depth: usize,
) -> (r: Result<ConfigValue, ConfigError>)
    ensures
        loads(text@, env@, depth, root_view(r)),
    decreases depth, 1nat,
{
    let chars = chars_of(text);
    let values = match parse_document(chars.as_slice()) {
        Ok(values) => values,
        Err(e) => {
            return Err(ConfigError::ParseError(e.to_string()));
        },
    };
    if values.len() == 0 {
        return Ok(ConfigValue::Null);
    }
    let mut root = match expand(&values[0], reader, env, depth) {
        Ok(done) => done,
        Err(e) => {
            assert(views(values@)[0].has_include());
            return Err(e);
        },
    };
    proof {
        if !names_files(text@) {
            assert(!views(values@)[0].has_include());
        }
    }
    let mut i: usize = 1;
    while i < values.len()
        invariant
            1 <= i <= values.len(),
            !root@.has_include(),
            root@.wf(),
            depth == 0 ==> forall|k: int|
                0 <= k < i ==> !(#[trigger] views(values@)[k]).has_include(),
            forall|k: int| 0 <= k < values@.len() ==> (#[trigger] values@[k])@.wf(),
            !names_files(text@) ==> root@ == folded(views(values@), i as nat),
            document(text@) == Ok::<Seq<ValueView>, ParseErrorView>(views(values@)),
        decreases values.len() - i,
    {
        match expand(&values[i], reader, env, depth) {
            Ok(done) => {
                proof {
                    lemma_merged_names_no_file(root@, done@);
                    if views(values@)[i as int].has_include() {
                        lemma_names_files(text@, views(values@), i as int);
                    }
                }
                root.with_fallback(done);
            },
            Err(e) => {
                assert(views(values@)[i as int].has_include());
                return Err(e);
            },
        }
        i += 1;
    }
    proof {
        lemma_resolved_names_no_file(root@, env@, root@.pass_bound());
    }
    match root.resolve_all(env) {
        Ok(()) => Ok(root),
        Err(e) => Err(e),
    }
}

impl<R: FileReader> ConfigFactory<R> {
    /// A factory that reads files through `file_reader`.
    pub fn new(file_reader: R) -> (r: Self)
        ensures
            r.file_reader == file_reader,
    {
        ConfigFactory { file_reader }
    }

    /// Loads the configuration that the file called `filename` holds.
    /// An error of the reader is the error of the load; what the reader
    /// hands over is loaded as [`Self::loaded_from`] says.
    pub fn load_from_file(&mut self, filename: &str, env: &Environment) -> (r: Result<
        Config,
        ConfigError,
    >)
        ensures
            r matches Ok(config) ==> config.config@.references() == 0
                && !config.config@.has_include() && config.config@.wf(),
    {
        let mut text = String::new();
        let read = self.file_reader.read_to_string(filename, &mut text);
        Self::loaded_from(read, text.as_str(), env, &mut self.file_reader)
    }

    /// What a load gives once the reader has answered `read` and handed
    /// over `text`: the error of the reader where it failed, and else the
    /// configuration that `text` holds.
    pub fn loaded_from(
        read: Result<(), ConfigError>,
        text: &str,
        env: &Environment,
        reader: &mut R,
    ) -> (r: Result<Config, ConfigError>)
        ensures
            match read {
                Err(e) => r is Err && r->Err_0@ == e@,
                Ok(()) => loads(text@, env@, MAX_INCLUDE_DEPTH, config_view(r)),
            },
            r matches Ok(config) ==> config.config@.references() == 0
                && !config.config@.has_include() && config.config@.wf(),
    {
        match read {
            Ok(()) => Self::parse_from_string(text, env, reader),
            Err(e) => Err(e),
        }
    }

    /// Loads the configuration that `text` holds, with files included at
    /// most [`MAX_INCLUDE_DEPTH`] deep. A text that names no file gives
    /// exactly what [`loaded`] says; one that names files has them read
    /// through `reader`. Either way the configuration that comes back
    /// holds no reference and no directive any more, and none of its
    /// objects has a key twice.
    pub fn parse_from_string(text: &str, env: &Environment, reader: &mut R) -> (r: Result<
        Config,
        ConfigError,
    >)
        ensures
            loads(text@, env@, MAX_INCLUDE_DEPTH, config_view(r)),
    {
        match load_text(text, reader, env, MAX_INCLUDE_DEPTH) {
            Ok(config) => Ok(Config { config }),
            Err(e) => Err(e),
        }
    }
}

/// What a lookup on a configuration gives for the value `found` at the
/// path: the value itself, or, where it is a reference that is still
/// there, what takes its place when it is resolved on the spot.
pub open spec fn evaluated(found: ValueView, root: ValueView, vars: Variables) -> Result<
    ValueView,
    Seq<char>,
> {
    match found {
        ValueView::Reference { prev, path, missing } => substituted(
            prev,
            path,
            missing,
            root,
            vars,
        ),
        _ => Ok(found),
    }
}

impl Config {
    /// A configuration whose root is `config`.
    pub fn new(config: ConfigValue) -> (r: Self)
        ensures
            r.config == config,
    {
        Config { config }
    }

    /// The root of the configuration.
    pub fn to_config_value(&self) -> (r: &ConfigValue)
        ensures
            *r == self.config,
    {
        &self.config
    }

    /// Resolves `reference`, a reference that lookup met, against this
    /// configuration and `env`.
    fn eval_reference(&self, reference: &ConfigValue, env: &Environment) -> (r: Result<
        ConfigValue,
        ConfigError,
    >)
        requires
            reference@ is Reference,
        ensures
            pass_returns(r, evaluated(reference@, self.config@, env@)),
    {
        reference.resolved_once(&self.config, env)
    }

    /// The value at `path`, or `None` where a key on the way is missing.
    /// A reference that is still there is resolved on the spot, against
    /// this configuration and then `env`; where it is required and names
    /// nothing, the lookup fails.
    pub fn get_value(&self, path: &str, env: &Environment) -> (r: Result<
        Option<ConfigValue>,
        ConfigError,
    >)
        ensures
            match self.config@.lookup(path@) {
                None => r matches Ok(None),
                Some(found) => match r {
                    Ok(Some(v)) => evaluated(found, self.config@, env@) == Ok::<
                        ValueView,
                        Seq<char>,
                    >(v@),
                    Ok(None) => false,
                    Err(e) => pass_fails(evaluated(found, self.config@, env@), e@),
                },
            },
    {
        match self.config.get_value(path) {
            None => Ok(None),
            Some(found) => match found {
                ConfigValue::Reference { .. } => match self.eval_reference(found, env) {
                    Ok(v) => Ok(Some(v)),
                    Err(e) => Err(e),
                },
                other => Ok(Some(other.clone())),
            },
        }
    }
}

} // verus!
