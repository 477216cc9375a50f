//! The state of a session and the program it stands for.
//!
//! A session gathers the declarations and statements of every cell it is
//! given and counts the cells. From what it has gathered it writes a
//! complete program: a module header, the imports, the other declarations,
//! and a `main` function that holds all statements. Writing the program to
//! disk and running it is left to the caller, who reports the outcome back as
//! a `RunOutcome`.

use crate::ambient::fresh_id;
use crate::classifier::{classify, classify_spec};
use crate::text::{
    chars_of, decimal, has_prefix_at, lines, lines_of, push_decimal, trim_range, trim_start, views,
};
use vstd::prelude::*;
use vstd::string::StringExecFns;

verus! {

/// Whether a declaration is an import: after leading whitespace it starts
/// with the import keyword.
pub open spec fn is_import(decl: Seq<char>) -> bool {
    "import "@.is_prefix_of(trim_start(decl))
}

/// The imports among `decls`, in order.
pub open spec fn imports(decls: Seq<Seq<char>>) -> Seq<Seq<char>>
    decreases decls.len(),
{
    if decls.len() == 0 {
        Seq::empty()
    } else if is_import(decls.last()) {
        imports(decls.drop_last()).push(decls.last())
    } else {
        imports(decls.drop_last())
    }
}

/// The declarations among `decls` that are no imports, in order.
pub open spec fn others(decls: Seq<Seq<char>>) -> Seq<Seq<char>>
    decreases decls.len(),
{
    if decls.len() == 0 {
        Seq::empty()
    } else if is_import(decls.last()) {
        others(decls.drop_last())
    } else {
        others(decls.drop_last()).push(decls.last())
    }
}

/// Every item followed by `end`, one after the other.
pub open spec fn terminated(items: Seq<Seq<char>>, end: Seq<char>) -> Seq<char>
    decreases items.len(),
{
    if items.len() == 0 {
        Seq::empty()
    } else {
        terminated(items.drop_last(), end) + items.last() + end
    }
}

/// Every line with a tab in front and a line feed behind.
pub open spec fn indented(ls: Seq<Seq<char>>) -> Seq<char>
    decreases ls.len(),
{
    if ls.len() == 0 {
        Seq::empty()
    } else {
        indented(ls.drop_last()) + seq!['\t'] + ls.last() + seq!['\n']
    }
}

/// The body of `main`: the lines of every statement, indented, in order.
pub open spec fn main_body(stmts: Seq<Seq<char>>) -> Seq<char>
    decreases stmts.len(),
{
    if stmts.len() == 0 {
        Seq::empty()
    } else {
        main_body(stmts.drop_last()) + indented(lines(stmts.last()))
    }
}

/// The `main` function that wraps the statements, or nothing if there is no
/// statement.
pub open spec fn main_text(stmts: Seq<Seq<char>>) -> Seq<char> {
    if stmts.len() == 0 {
        Seq::empty()
    } else {
        "fn main() {\n"@ + main_body(stmts) + "}\n"@
    }
}

/// The blank line that follows the imports, if there are any.
pub open spec fn imports_gap(decls: Seq<Seq<char>>) -> Seq<char> {
    if imports(decls).len() > 0 {
        "\n"@
    } else {
        Seq::empty()
    }
}

/// The program that a session with these declarations and statements stands
/// for: the module header and a blank line; every import on a line of its
/// own, and a blank line if there is an import; every other declaration
/// followed by a blank line; and the `main` function with the statements.
pub open spec fn program_text(decls: Seq<Seq<char>>, stmts: Seq<Seq<char>>) -> Seq<char> {
    "module main\n\n"@ + terminated(imports(decls), "\n"@) + imports_gap(decls) + terminated(
        others(decls),
        "\n\n"@,
    ) + main_text(stmts)
}

/// The name of the file that holds the program of the cell with this number.
pub open spec fn cell_file_name(count: nat) -> Seq<char> {
    "cell_"@ + decimal(count) + ".v"@
}

/// The name of the scratch directory of the session with the identifier
/// `id`.
pub open spec fn scratch_dir_text(id: Seq<char>) -> Seq<char> {
    "v-kernel-"@ + id
}

/// A session as a value: what it has gathered and how many cells it has
/// been given.
pub struct SessionView {
    pub declarations: Seq<Seq<char>>,
    pub statements: Seq<Seq<char>>,
    pub execution_count: nat,
}

/// The session before any cell.
pub open spec fn initial_session() -> SessionView {
    SessionView { declarations: Seq::empty(), statements: Seq::empty(), execution_count: 0 }
}

/// The session after one more cell: its declarations and statements are
/// appended to what was there, and the counter goes up by one.
pub open spec fn session_step(s: SessionView, code: Seq<char>) -> SessionView {
    SessionView {
        declarations: s.declarations + classify_spec(code).0,
        statements: s.statements + classify_spec(code).1,
        execution_count: s.execution_count + 1,
    }
}

/// The session after the cells `cells`, given in this order to a new session.
pub open spec fn session_after(cells: Seq<Seq<char>>) -> SessionView
    decreases cells.len(),
{
    if cells.len() == 0 {
        initial_session()
    } else {
        session_step(session_after(cells.drop_last()), cells.last())
    }
}

/// The declarations of all `cells`, cell after cell.
pub open spec fn all_declarations(cells: Seq<Seq<char>>) -> Seq<Seq<char>> {
    cells.map_values(|code: Seq<char>| classify_spec(code).0).flatten()
}

/// The statements of all `cells`, cell after cell.
pub open spec fn all_statements(cells: Seq<Seq<char>>) -> Seq<Seq<char>> {
    cells.map_values(|code: Seq<char>| classify_spec(code).1).flatten()
}

/// State accumulates. After the cells `cells`, the session holds the
/// declarations of all cells, cell after cell and within a cell in the order
/// in which they start, each as often as it was given; the same holds of the
/// statements; and the counter is the number of cells.
pub proof fn lemma_state_accumulates(cells: Seq<Seq<char>>)
    ensures
        session_after(cells).declarations == all_declarations(cells),
        session_after(cells).statements == all_statements(cells),
        session_after(cells).execution_count == cells.len(),
    decreases cells.len(),
{
    let decls_of = |code: Seq<char>| classify_spec(code).0;
    let stmts_of = |code: Seq<char>| classify_spec(code).1;
    if cells.len() == 0 {
        assert(cells.map_values(decls_of) =~= Seq::<Seq<Seq<char>>>::empty());
        assert(cells.map_values(stmts_of) =~= Seq::<Seq<Seq<char>>>::empty());
    } else {
        let init = cells.drop_last();
        lemma_state_accumulates(init);
        let d = seq![classify_spec(cells.last()).0];
        let s = seq![classify_spec(cells.last()).1];
        assert(cells.map_values(decls_of) =~= init.map_values(decls_of) + d);
        assert(cells.map_values(stmts_of) =~= init.map_values(stmts_of) + s);
        vstd::seq_lib::lemma_flatten_concat(init.map_values(decls_of), d);
        vstd::seq_lib::lemma_flatten_concat(init.map_values(stmts_of), s);
        d.lemma_flatten_one_element();
        s.lemma_flatten_one_element();
    }
}

/// The program's two sections of declarations hold every declaration once:
/// the imports and the other declarations together are the declarations,
/// each as often as it occurs among them, every import is one, and no other
/// declaration is.
pub proof fn lemma_sections_partition(decls: Seq<Seq<char>>)
    ensures
        imports(decls).to_multiset().add(others(decls).to_multiset()) == decls.to_multiset(),
        imports(decls).len() + others(decls).len() == decls.len(),
        forall|i: int| 0 <= i < imports(decls).len() ==> is_import(#[trigger] imports(decls)[i]),
        forall|i: int| 0 <= i < others(decls).len() ==> !is_import(#[trigger] others(decls)[i]),
    decreases decls.len(),
{
    broadcast use vstd::seq_lib::group_to_multiset_ensures;

    if decls.len() == 0 {
        assert(imports(decls).to_multiset().add(others(decls).to_multiset())
            =~= decls.to_multiset());
    } else {
        let init = decls.drop_last();
        let last = decls.last();
        lemma_sections_partition(init);
        assert(init.push(last) =~= decls);
        assert(imports(decls).to_multiset().add(others(decls).to_multiset())
            =~= decls.to_multiset());
    }
}

/// A program to be run: the name of its file and its text.
pub struct SourceFile {
    pub name: String,
    pub text: String,
}

/// What the session has gathered from its cells, and the name of the
/// directory in which the programs of its cells are kept.
pub struct KernelState {
    declarations: Vec<String>,
    statements: Vec<String>,
    execution_count: u32,
    scratch_dir: String,
}

impl View for KernelState {
    type V = SessionView;

    closed spec fn view(&self) -> SessionView {
        SessionView {
            declarations: views(self.declarations@),
            statements: views(self.statements@),
            execution_count: self.execution_count as nat,
        }
    }
}

/// Tells whether a declaration is an import.
fn is_import_decl(decl: &str) -> (b: bool)
    ensures
        b == is_import(decl@),
{
    let s = chars_of(decl);
    let (a, _) = trim_range(s.as_slice());
    has_prefix_at(s.as_slice(), a, s.len(), "import ")
}

/// Appends the lines of `stmt`, indented, to `out`.
fn push_indented(out: &mut String, stmt: &str)
    ensures
        final(out)@ == old(out)@ + indented(lines(stmt@)),
{
    let ls = lines_of(stmt);
    let mut i: usize = 0;
    assert(views(ls@).take(0) =~= Seq::<Seq<char>>::empty());
    assert(out@ + Seq::<char>::empty() =~= out@);
    while i < ls.len()
        invariant
            i <= ls.len(),
            views(ls@) == lines(stmt@),
            out@ == old(out)@ + indented(views(ls@).take(i as int)),
        decreases ls.len() - i,
    {
        let ghost done = views(ls@).take(i as int);
        out.push('\t');
        out.append(ls[i].as_str());
        out.push('\n');
        proof {
            let next = views(ls@).take(i + 1);
            assert(next.drop_last() =~= done);
            assert(next.last() == ls@[i as int]@);
            assert(out@ =~= old(out)@ + (indented(done) + seq!['\t'] + ls@[i as int]@ + seq!['\n']));
        }
        i += 1;
    }
    assert(views(ls@).take(i as int) =~= views(ls@));
}

impl KernelState {
    /// The name of the session's scratch directory.
    pub closed spec fn scratch_dir_spec(&self) -> Seq<char> {
        self.scratch_dir@
    }

    /// A session that has seen no cell, with a scratch directory named
    /// after a fresh random identifier.
    pub fn new() -> (s: Self)
        ensures
            s@ == initial_session(),
            exists|id: Seq<char>| s.scratch_dir_spec() == scratch_dir_text(id),
    {
        let id = fresh_id();
        KernelState::with_id(id.as_str())
    }

    /// A session that has seen no cell, with a scratch directory named
    /// after `id`, an identifier that no other session has.
    pub fn with_id(id: &str) -> (s: Self)
        ensures
            s@ == initial_session(),
            s.scratch_dir_spec() == scratch_dir_text(id@),
    {
        let mut scratch_dir = String::new();
        scratch_dir.append("v-kernel-");
        scratch_dir.append(id);
        assert(scratch_dir@ =~= scratch_dir_text(id@));
        let s = KernelState {
            declarations: Vec::new(),
            statements: Vec::new(),
            execution_count: 0,
            scratch_dir,
        };
        assert(views(s.declarations@) =~= Seq::<Seq<char>>::empty());
        assert(views(s.statements@) =~= Seq::<Seq<char>>::empty());
        s
    }

    /// The name of the session's scratch directory, to be made below the
    /// system's directory for temporary files. The programs of the cells
    /// go into it, each under the name that `stage_cell` gives.
    pub fn scratch_dir(&self) -> (name: &str)
        ensures
            name@ == self.scratch_dir_spec(),
    {
        self.scratch_dir.as_str()
    }

    /// The declarations gathered so far, in the order in which they came.
    pub fn declarations(&self) -> (d: &Vec<String>)
        ensures
            views(d@) == self@.declarations,
    {
        &self.declarations
    }

    /// The statements gathered so far, in the order in which they came.
    pub fn statements(&self) -> (s: &Vec<String>)
        ensures
            views(s@) == self@.statements,
    {
        &self.statements
    }

    /// The number of cells that the session has been given.
    pub fn execution_count(&self) -> (n: u32)
        ensures
            n == self@.execution_count,
    {
        self.execution_count
    }

    /// Writes the complete program for what the session has gathered.
    pub fn build_source(&self) -> (out: String)
        ensures
            out@ == program_text(self@.declarations, self@.statements),
    {
        let ghost decls = views(self.declarations@);
        let ghost stmts = views(self.statements@);
        let n = self.declarations.len();
        let mut out = String::new();
        out.append("module main\n\n");
        assert(out@ =~= "module main\n\n"@);
        let mut any_import = false;
        let mut i: usize = 0;
        proof {
            assert(decls.take(0) =~= Seq::<Seq<char>>::empty());
            assert(out@ =~= "module main\n\n"@ + terminated(imports(decls.take(0)), "\n"@));
        }
        while i < n
            invariant
                i <= n == self.declarations.len(),
                decls == views(self.declarations@),
                out@ == "module main\n\n"@ + terminated(imports(decls.take(i as int)), "\n"@),
                any_import == (imports(decls.take(i as int)).len() > 0),
            decreases n - i,
        {
            let decl = self.declarations[i].as_str();
            proof {
                let next = decls.take(i + 1);
                assert(next.drop_last() =~= decls.take(i as int));
                assert(next.last() == decl@);
                if is_import(decl@) {
                    let found = imports(next);
                    assert(found.drop_last() =~= imports(decls.take(i as int)));
                    assert(found.last() == decl@);
                }
            }
            if is_import_decl(decl) {
                out.append(decl);
                out.append("\n");
                assert(out@ =~= "module main\n\n"@ + (terminated(
                    imports(decls.take(i as int)),
                    "\n"@,
                ) + decl@ + "\n"@));
                any_import = true;
            }
            i += 1;
        }
        assert(decls.take(n as int) =~= decls);
        if any_import {
            out.append("\n");
        }
        let ghost head = "module main\n\n"@ + terminated(imports(decls), "\n"@) + imports_gap(
            decls,
        );
        assert(out@ =~= head);
        i = 0;
        proof {
            assert(decls.take(0) =~= Seq::<Seq<char>>::empty());
            assert(out@ =~= head + terminated(others(decls.take(0)), "\n\n"@));
        }
        while i < n
            invariant
                i <= n == self.declarations.len(),
                decls == views(self.declarations@),
                out@ == head + terminated(others(decls.take(i as int)), "\n\n"@),
            decreases n - i,
        {
            let decl = self.declarations[i].as_str();
            proof {
                let next = decls.take(i + 1);
                assert(next.drop_last() =~= decls.take(i as int));
                assert(next.last() == decl@);
                if !is_import(decl@) {
                    let found = others(next);
                    assert(found.drop_last() =~= others(decls.take(i as int)));
                    assert(found.last() == decl@);
                }
            }
            if !is_import_decl(decl) {
                out.append(decl);
                out.append("\n\n");
                assert(out@ =~= head + (terminated(others(decls.take(i as int)), "\n\n"@) + decl@
                    + "\n\n"@));
            }
            i += 1;
        }
        assert(decls.take(n as int) =~= decls);
        let ghost upper = head + terminated(others(decls), "\n\n"@);
        let m = self.statements.len();
        if m > 0 {
            out.append("fn main() {\n");
            let mut j: usize = 0;
            proof {
                assert(stmts.take(0) =~= Seq::<Seq<char>>::empty());
                assert(out@ =~= upper + "fn main() {\n"@ + main_body(stmts.take(0)));
            }
            while j < m
                invariant
                    j <= m == self.statements.len(),
                    stmts == views(self.statements@),
                    out@ == upper + "fn main() {\n"@ + main_body(stmts.take(j as int)),
                decreases m - j,
            {
                let stmt = self.statements[j].as_str();
                push_indented(&mut out, stmt);
                proof {
                    let next = stmts.take(j + 1);
                    assert(next.drop_last() =~= stmts.take(j as int));
                    assert(next.last() == stmt@);
                    assert(out@ =~= upper + "fn main() {\n"@ + (main_body(stmts.take(j as int))
                        + indented(lines(stmt@))));
                }
                j += 1;
            }
            assert(stmts.take(m as int) =~= stmts);
            out.append("}\n");
            assert(out@ =~= upper + ("fn main() {\n"@ + main_body(stmts) + "}\n"@));
        } else {
            assert(out@ =~= upper + Seq::<char>::empty());
        }
        out
    }

    /// Takes in one cell: counts it, appends its declarations and statements
    /// to what the session holds, and returns the program that the session
    /// now stands for, under the file name of this cell. The counter goes up
    /// whatever becomes of the program afterwards.
    pub fn stage_cell(&mut self, code: &str) -> (file: SourceFile)
        requires
            old(self)@.execution_count < u32::MAX,
        ensures
            final(self)@ == session_step(old(self)@, code@),
            final(self)@.execution_count == old(self)@.execution_count + 1,
            final(self).scratch_dir_spec() == old(self).scratch_dir_spec(),
            file.text@ == program_text(final(self)@.declarations, final(self)@.statements),
            file.name@ == cell_file_name(final(self)@.execution_count),
    {
        self.execution_count = self.execution_count + 1;
        let (mut decls, mut stmts) = classify(code);
        let ghost old_decls = views(self.declarations@);
        let ghost old_stmts = views(self.statements@);
        let ghost new_decls = views(decls@);
        let ghost new_stmts = views(stmts@);
        self.declarations.append(&mut decls);
        self.statements.append(&mut stmts);
        assert(views(self.declarations@) =~= old_decls + new_decls);
        assert(views(self.statements@) =~= old_stmts + new_stmts);
        let text = self.build_source();
        let mut name = String::new();
        name.append("cell_");
        push_decimal(&mut name, self.execution_count as u64);
        name.append(".v");
        assert(name@ =~= cell_file_name(self.execution_count as nat));
        SourceFile { name, text }
    }
}

} // verus!
