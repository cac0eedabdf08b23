//! The breakpoints that are stored with a workspace.

use vstd::prelude::*;
use crate::model::ColumnError;
use crate::persistence::WorkspaceDb;
use crate::text::{clone_opt, opt_text, same_text};

verus! {

/// Whether a breakpoint stops the program.
#[derive(Debug, Clone, Copy, PartialEq, Eq, Structural)]
pub enum BreakpointState {
    Enabled,
    Disabled,
}

/// The number that a state is stored as.
pub open spec fn state_number(state: BreakpointState) -> int {
    match state {
        BreakpointState::Enabled => 0,
        BreakpointState::Disabled => 1,
    }
}

impl BreakpointState {
    /// The number that the state is stored as.
    pub fn to_int(&self) -> (r: i64)
        ensures
            r == state_number(*self),
    {
        match self {
            BreakpointState::Enabled => 0,
            BreakpointState::Disabled => 1,
        }
    }

    /// Reads a stored state: only a number that stands for one is accepted.
    pub fn column(number: i64) -> (r: Result<BreakpointState, ColumnError>)
        ensures
            match r {
                Ok(state) => state_number(state) == number,
                Err(e) => e == ColumnError::BreakpointState(number) && number != 0 && number != 1,
            },
    {
        if number == 0 {
            Ok(BreakpointState::Enabled)
        } else if number == 1 {
            Ok(BreakpointState::Disabled)
        } else {
            Err(ColumnError::BreakpointState(number))
        }
    }
}

/// A breakpoint as it is stored with its file.
#[derive(Debug, PartialEq, Eq)]
pub struct Breakpoint {
    pub position: u32,
    pub message: Option<String>,
    pub condition: Option<String>,
    pub hit_condition: Option<String>,
    pub state: BreakpointState,
}

/// A breakpoint with the file that it is in.
#[derive(Debug, PartialEq, Eq)]
pub struct SourceBreakpoint {
    pub row: u32,
    pub path: String,
    pub message: Option<String>,
    pub condition: Option<String>,
    pub hit_condition: Option<String>,
    pub state: BreakpointState,
}

#[verifier::ext_equal]
pub struct BreakpointModel {
    pub row: u32,
    pub message: Option<Seq<char>>,
    pub condition: Option<Seq<char>>,
    pub hit_condition: Option<Seq<char>>,
    pub state: BreakpointState,
}

#[verifier::ext_equal]
pub struct SourceBreakpointModel {
    pub path: Seq<char>,
    pub breakpoint: BreakpointModel,
}

impl View for Breakpoint {
    type V = BreakpointModel;

    open spec fn view(&self) -> BreakpointModel {
        BreakpointModel {
            row: self.position,
            message: opt_text(self.message),
            condition: opt_text(self.condition),
            hit_condition: opt_text(self.hit_condition),
            state: self.state,
        }
    }
}

impl View for SourceBreakpoint {
    type V = SourceBreakpointModel;

    open spec fn view(&self) -> SourceBreakpointModel {
        SourceBreakpointModel {
            path: self.path@,
            breakpoint: BreakpointModel {
                row: self.row,
                message: opt_text(self.message),
                condition: opt_text(self.condition),
                hit_condition: opt_text(self.hit_condition),
                state: self.state,
            },
        }
    }
}

/// A row number that is stored as a signed number of the same width.
pub open spec fn unsigned(n: i32) -> int {
    if n >= 0 {
        n as int
    } else {
        n + 0x1_0000_0000
    }
}

impl Breakpoint {
    /// Reads the five columns of a breakpoint.
    pub fn column(
        position: i32,
        message: Option<String>,
        condition: Option<String>,
        hit_condition: Option<String>,
        state: i64,
    ) -> (r: Result<Breakpoint, ColumnError>)
        ensures
            match r {
                Ok(b) => {
                    &&& b.position == unsigned(position)
                    &&& b.message == message
                    &&& b.condition == condition
                    &&& b.hit_condition == hit_condition
                    &&& state_number(b.state) == state
                },
                Err(e) => e == ColumnError::BreakpointState(state) && state != 0 && state != 1,
            },
    {
        let state = match BreakpointState::column(state) {
            Ok(state) => state,
            Err(e) => return Err(e),
        };
        let row: u32 = #[verifier::truncate]
        (position as u32);
        assert(row == if position >= 0 {
            position as int
        } else {
            position + 0x1_0000_0000
        }) by (bit_vector)
            requires
                row == position as u32,
        ;
        Ok(Breakpoint { position: row, message, condition, hit_condition, state })
    }

    /// The five columns of a breakpoint.
    pub fn bind(&self) -> (r: (u32, Option<String>, Option<String>, Option<String>, i64))
        ensures
            r.0 == self.position,
            opt_text(r.1) == opt_text(self.message),
            opt_text(r.2) == opt_text(self.condition),
            opt_text(r.3) == opt_text(self.hit_condition),
            r.4 == state_number(self.state),
    {
        (
            self.position,
            clone_opt(&self.message),
            clone_opt(&self.condition),
            clone_opt(&self.hit_condition),
            self.state.to_int(),
        )
    }
}

/// The breakpoints of one file.
#[derive(Debug, PartialEq, Eq)]
pub struct FileBreakpoints {
    pub path: String,
    pub breakpoints: Vec<SourceBreakpoint>,
}

pub open spec fn breakpoint_models(list: Seq<SourceBreakpoint>) -> Seq<SourceBreakpointModel> {
    list.map_values(|b: SourceBreakpoint| b@)
}

/// The breakpoints of every file that the first `n` rows name, each list in the order of the rows.
pub open spec fn by_file(rows: Seq<(String, Breakpoint)>, n: nat) -> Map<Seq<char>, Seq<SourceBreakpointModel>>
    decreases n,
{
    if n == 0 {
        Map::empty()
    } else {
        let before = by_file(rows, (n - 1) as nat);
        let path = rows[n - 1].0@;
        let new = SourceBreakpointModel { path, breakpoint: rows[n - 1].1@ };
        if before.contains_key(path) {
            before.insert(path, before[path].push(new))
        } else {
            before.insert(path, seq![new])
        }
    }
}

/// The lists of files stand for a map: no file is listed twice, and each list is that of its file.
pub open spec fn lists_files(files: Seq<FileBreakpoints>, map: Map<Seq<char>, Seq<SourceBreakpointModel>>) -> bool {
    &&& forall|i: int, j: int| #![trigger files[i], files[j]]
        0 <= i < j < files.len() ==> files[i].path@ != files[j].path@
    &&& forall|i: int| 0 <= i < files.len() ==> {
        &&& map.contains_key((#[trigger] files[i]).path@)
        &&& map[files[i].path@] == breakpoint_models(files[i].breakpoints@)
    }
    &&& forall|path: Seq<char>| #[trigger] map.contains_key(path) ==> exists|i: int|
        0 <= i < files.len() && (#[trigger] files[i]).path@ == path
}

/// The files that the first `n` rows name, each where it is named first.
pub open spec fn files_named(rows: Seq<(String, Breakpoint)>, n: nat) -> Seq<Seq<char>>
    decreases n,
{
    if n == 0 {
        Seq::empty()
    } else {
        let before = files_named(rows, (n - 1) as nat);
        let path = rows[n - 1].0@;
        if before.contains(path) {
            before
        } else {
            before.push(path)
        }
    }
}

pub open spec fn file_paths(files: Seq<FileBreakpoints>) -> Seq<Seq<char>> {
    files.map_values(|file: FileBreakpoints| file.path@)
}

fn in_file(path: &String, b: &Breakpoint) -> (r: SourceBreakpoint)
    ensures
        r@ == (SourceBreakpointModel { path: path@, breakpoint: b@ }),
{
    SourceBreakpoint {
        row: b.position,
        path: path.clone(),
        message: clone_opt(&b.message),
        condition: clone_opt(&b.condition),
        hit_condition: clone_opt(&b.hit_condition),
        state: b.state,
    }
}

impl WorkspaceDb {
    /// The breakpoints of a workspace by file, in the order in which the rows name the files; none
    /// where they could not be read.
    pub fn breakpoints(rows: &Option<Vec<(String, Breakpoint)>>) -> (r: Vec<FileBreakpoints>)
        ensures
            match rows {
                Some(rows) => {
                    &&& lists_files(r@, by_file(rows@, rows@.len()))
                    &&& file_paths(r@) == files_named(rows@, rows@.len())
                },
                None => r@.len() == 0,
            },
    {
        let mut files: Vec<FileBreakpoints> = Vec::new();
        let rows = match rows {
            Some(rows) => rows,
            None => return files,
        };
        let mut n: usize = 0;
        assert(file_paths(files@) =~= Seq::empty());
        while n < rows.len()
            invariant
                n <= rows@.len(),
                lists_files(files@, by_file(rows@, n as nat)),
                file_paths(files@) == files_named(rows@, n as nat),
            decreases rows@.len() - n,
        {
            let ghost before = files@;
            let ghost map = by_file(rows@, n as nat);
            let path = &rows[n].0;
            let ghost name = path@;
            let breakpoint = in_file(path, &rows[n].1);
            let ghost new = breakpoint@;
            let mut i: usize = 0;
            while i < files.len() && !same_text(files[i].path.as_str(), path.as_str())
                invariant
                    i <= files@.len(),
                    files@ == before,
                    name == path@,
                    forall|j: int| 0 <= j < i ==> (#[trigger] before[j]).path@ != name,
                decreases files@.len() - i,
            {
                i += 1;
            }
            if i < files.len() {
                let mut file = files.remove(i);
                let ghost list = file.breakpoints@;
                file.breakpoints.push(breakpoint);
                proof {
                    assert(breakpoint_models(file.breakpoints@) =~= breakpoint_models(list).push(new));
                }
                files.insert(i, file);
                proof {
                    assert(files@ =~= before.update(i as int, file));
                    assert(file_paths(before)[i as int] == name);
                    assert(file_paths(files@) =~= file_paths(before));
                    let after = by_file(rows@, (n + 1) as nat);
                    assert(map.contains_key(before[i as int].path@));
                    assert(after == map.insert(name, map[name].push(new)));
                    assert forall|k: int| 0 <= k < files@.len() implies {
                        &&& after.contains_key((#[trigger] files@[k]).path@)
                        &&& after[files@[k].path@] == breakpoint_models(files@[k].breakpoints@)
                    } by {
                        assert(map.contains_key(before[k].path@));
                        if k != i {
                            assert(before[k].path@ != before[i as int].path@);
                        }
                    }
                    assert forall|a: int, b: int| #![trigger files@[a], files@[b]] 0 <= a < b < files@.len() implies
                        files@[a].path@ != files@[b].path@ by {
                        assert(before[a].path@ != before[b].path@);
                    }
                    assert forall|p: Seq<char>| #[trigger] after.contains_key(p) implies exists|k: int|
                        0 <= k < files@.len() && (#[trigger] files@[k]).path@ == p by {
                        assert(map.contains_key(p));
                        let k = choose|k: int| 0 <= k < before.len() && (#[trigger] before[k]).path@ == p;
                        assert(files@[k].path@ == p);
                    }
                }
            } else {
                let file = FileBreakpoints { path: path.clone(), breakpoints: vec![breakpoint] };
                proof {
                    assert(breakpoint_models(file.breakpoints@) =~= seq![new]);
                    assert(!map.contains_key(name)) by {
                        if map.contains_key(name) {
                            let k = choose|k: int| 0 <= k < before.len() && (#[trigger] before[k]).path@ == name;
                            assert(before[k].path@ != name);
                        }
                    }
                }
                files.push(file);
                proof {
                    assert(!file_paths(before).contains(name)) by {
                        assert forall|k: int| 0 <= k < before.len() implies file_paths(before)[k] != name by {
                            assert(before[k].path@ != name);
                        }
                    }
                    assert(file_paths(files@) =~= file_paths(before).push(name));
                    let after = by_file(rows@, (n + 1) as nat);
                    assert(after == map.insert(name, seq![new]));
                    assert forall|k: int| 0 <= k < files@.len() implies {
                        &&& after.contains_key((#[trigger] files@[k]).path@)
                        &&& after[files@[k].path@] == breakpoint_models(files@[k].breakpoints@)
                    } by {
                        if k < before.len() {
                            assert(map.contains_key(before[k].path@));
                        }
                    }
                    assert forall|p: Seq<char>| #[trigger] after.contains_key(p) implies exists|k: int|
                        0 <= k < files@.len() && (#[trigger] files@[k]).path@ == p by {
                        if p == name {
                            assert(files@[before.len() as int].path@ == p);
                        } else {
                            assert(map.contains_key(p));
                            let k = choose|k: int| 0 <= k < before.len() && (#[trigger] before[k]).path@ == p;
                            assert(files@[k].path@ == p);
                        }
                    }
                }
            }
            n += 1;
        }
        files
    }
}

/// A breakpoint that stops the program is stored as zero, one that does not as one.
pub proof fn lemma_state_numbers(state: BreakpointState)
    ensures
        state_number(state) == 0 <==> state is Enabled,
        state_number(state) == 1 <==> state is Disabled,
{
}

/// A row that is read from a signed column is the one that was written to it.
pub proof fn lemma_row_read_back(row: u32, n: i32)
    ensures
        0 <= unsigned(n) <= u32::MAX,
        (unsigned(n) - n) % 0x1_0000_0000 == 0,
        n == row as i32 ==> unsigned(n) == row,
{
    assert(n == row as i32 ==> if n >= 0 {
        row == n
    } else {
        row == n + 0x1_0000_0000
    }) by (bit_vector);
}

/// The breakpoints of a file are those that the rows give it, in their order, and a file has an entry
/// where a row names it.
pub proof fn lemma_breakpoints_of_file(rows: Seq<(String, Breakpoint)>, n: nat, path: Seq<char>)
    requires
        n <= rows.len(),
    ensures
        ({
            let members = rows.take(n as int).filter(|r: (String, Breakpoint)| r.0@ == path).map_values(
                |r: (String, Breakpoint)| SourceBreakpointModel { path, breakpoint: r.1@ },
            );
            &&& by_file(rows, n).contains_key(path) <==> members.len() > 0
            &&& members.len() > 0 ==> by_file(rows, n)[path] == members
        }),
    decreases n,
{
    let pred = |r: (String, Breakpoint)| r.0@ == path;
    let made = |r: (String, Breakpoint)| SourceBreakpointModel { path, breakpoint: r.1@ };
    reveal(Seq::filter);
    if n > 0 {
        lemma_breakpoints_of_file(rows, (n - 1) as nat, path);
        let all = rows.take(n as int);
        assert(all.drop_last() =~= rows.take(n - 1));
        let before = rows.take(n - 1).filter(pred).map_values(made);
        if pred(all.last()) {
            assert(all.filter(pred).map_values(made) =~= before.push(made(all.last())));
            if before.len() == 0 {
                assert(all.filter(pred).map_values(made) =~= seq![made(all.last())]);
            }
        }
    }
}

/// Every file that a row names is listed once, before the files that are named first behind it.
pub proof fn lemma_files_named(rows: Seq<(String, Breakpoint)>, n: nat)
    requires
        n <= rows.len(),
    ensures
        files_named(rows, n).no_duplicates(),
        forall|i: int| 0 <= i < n ==> files_named(rows, n).contains((#[trigger] rows[i]).0@),
        forall|k: int|
            0 <= k < files_named(rows, n).len() ==> exists|i: int|
                0 <= i < n && (#[trigger] rows[i]).0@ == #[trigger] files_named(rows, n)[k],
        n > 0 ==> files_named(rows, (n - 1) as nat).is_prefix_of(files_named(rows, n)),
    decreases n,
{
    if n > 0 {
        lemma_files_named(rows, (n - 1) as nat);
        let before = files_named(rows, (n - 1) as nat);
        let after = files_named(rows, n);
        let path = rows[n - 1].0@;
        assert(before.is_prefix_of(after));
        assert forall|i: int| 0 <= i < n implies after.contains((#[trigger] rows[i]).0@) by {
            if i < n - 1 {
                assert(before.contains(rows[i].0@));
                let k = choose|k: int| 0 <= k < before.len() && before[k] == rows[i].0@;
                assert(after[k] == before[k]);
            } else if !before.contains(path) {
                assert(after[before.len() as int] == path);
            }
        }
        assert forall|k: int| 0 <= k < after.len() implies exists|i: int|
            0 <= i < n && (#[trigger] rows[i]).0@ == #[trigger] after[k] by {
            if k < before.len() {
                assert(after[k] == before[k]);
                let i = choose|i: int| 0 <= i < n - 1 && (#[trigger] rows[i]).0@ == before[k];
                assert(rows[i].0@ == after[k]);
            } else {
                assert(rows[n - 1].0@ == after[k]);
            }
        }
    }
}

} // verus!
