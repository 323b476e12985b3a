//! Label resolution: one scan that builds the label table and classifies
//! the program as clean, with unused labels, with missing labels, or with a
//! duplicate label.

use crate::ast::{Instruction, Line, LineView, line_views};
use crate::labels::LabelTable;
use vstd::prelude::*;

verus! {

/// What a scan of a program for its labels found.
#[derive(Debug)]
pub enum ScanResult {
    /// Labels that a `jump` or `from` names and no line carries.
    Missing(Vec<String>),
    /// Labels that no `jump` or `from` names, with the table.
    Unused(Vec<String>, LabelTable),
    /// A label that two lines carry.
    Duplicate(String),
    /// The table: every label is carried once and named at least once.
    Clean(LabelTable),
}

/// The mathematical value of a `ScanResult`.
pub enum Scan {
    Missing(Seq<Seq<char>>),
    Unused(Seq<Seq<char>>, Map<Seq<char>, usize>),
    Duplicate(Seq<char>),
    Clean(Map<Seq<char>, usize>),
}

/// The characters of each of `names`, in order.
pub open spec fn name_views(names: Seq<String>) -> Seq<Seq<char>> {
    names.map_values(|s: String| s@)
}

impl View for ScanResult {
    type V = Scan;

    open spec fn view(&self) -> Scan {
        match *self {
            ScanResult::Missing(names) => Scan::Missing(name_views(names@)),
            ScanResult::Unused(names, table) => Scan::Unused(name_views(names@), table@),
            ScanResult::Duplicate(name) => Scan::Duplicate(name@),
            ScanResult::Clean(table) => Scan::Clean(table@),
        }
    }
}

/// Whether line `i` carries the label `name`.
pub open spec fn labelled(program: Seq<LineView>, i: int, name: Seq<char>) -> bool {
    0 <= i < program.len() && program[i].label == Some(name)
}

/// Whether line `i` names the label `name` in a `jump` or `from`.
pub open spec fn refers(program: Seq<LineView>, i: int, name: Seq<char>) -> bool {
    0 <= i < program.len() && program[i].inst.target() == Some(name)
}

/// Whether some line carries the label `name`.
pub open spec fn defined(program: Seq<LineView>, name: Seq<char>) -> bool {
    exists|i: int| labelled(program, i, name)
}

/// Whether some line names the label `name`.
pub open spec fn referenced(program: Seq<LineView>, name: Seq<char>) -> bool {
    exists|i: int| refers(program, i, name)
}

/// Whether line `j` carries a label that an earlier line carries too.
pub open spec fn repeats(program: Seq<LineView>, j: int) -> bool {
    exists|i: int| 0 <= i < j && #[trigger] labelled(program, i, program[j].label->0) && labelled(
        program,
        j,
        program[j].label->0,
    )
}

/// Whether line `j` is the first that repeats a label.
pub open spec fn first_repeat(program: Seq<LineView>, j: int) -> bool {
    repeats(program, j) && forall|k: int| 0 <= k < j ==> !repeats(program, k)
}

/// Whether some label is carried twice.
pub open spec fn has_duplicate(program: Seq<LineView>) -> bool {
    exists|j: int| repeats(program, j)
}

/// The first of the first `n` lines that carries `name`.
pub open spec fn line_of(program: Seq<LineView>, n: int, name: Seq<char>) -> int {
    choose|i: int| i < n && labelled(program, i, name)
}

/// The labels of the first `n` lines, each with the line that carries it.
pub open spec fn label_map(program: Seq<LineView>, n: int) -> Map<Seq<char>, usize> {
    Map::new(
        |name: Seq<char>| exists|i: int| i < n && labelled(program, i, name),
        |name: Seq<char>| line_of(program, n, name) as usize,
    )
}

/// The labels that the first `n` lines name and no line carries: each once,
/// in the order in which they are first named.
pub open spec fn missing_names(program: Seq<LineView>, n: int) -> Seq<Seq<char>>
    decreases n,
{
    if n <= 0 {
        Seq::empty()
    } else {
        let before = missing_names(program, n - 1);
        match program[n - 1].inst.target() {
            Some(name) => if !defined(program, name) && !before.contains(name) {
                before.push(name)
            } else {
                before
            },
            None => before,
        }
    }
}

/// The labels that the first `n` lines carry and no line names, in the
/// order of the lines.
pub open spec fn unused_names(program: Seq<LineView>, n: int) -> Seq<Seq<char>>
    decreases n,
{
    if n <= 0 {
        Seq::empty()
    } else {
        let before = unused_names(program, n - 1);
        match program[n - 1].label {
            Some(name) => if !referenced(program, name) {
                before.push(name)
            } else {
                before
            },
            None => before,
        }
    }
}

/// The outcome of a scan. A duplicate comes first: the label of the first
/// line that repeats one. Then the missing labels, if there are any. Then
/// the table, with the unused labels if there are any.
pub open spec fn spec_scan(program: Seq<LineView>) -> Scan {
    let n = program.len() as int;
    if has_duplicate(program) {
        Scan::Duplicate(program[choose|j: int| first_repeat(program, j)].label->0)
    } else if missing_names(program, n).len() > 0 {
        Scan::Missing(missing_names(program, n))
    } else if unused_names(program, n).len() > 0 {
        Scan::Unused(unused_names(program, n), label_map(program, n))
    } else {
        Scan::Clean(label_map(program, n))
    }
}

/// Whether `names` holds a name that spells `name`.
fn contains_name(names: &Vec<String>, name: &String) -> (r: bool)
    ensures
        r == name_views(names@).contains(name@),
{
    let mut i: usize = 0;
    while i < names.len()
        invariant
            i <= names.len(),
            forall|k: int| 0 <= k < i ==> name_views(names@)[k] != name@,
        decreases names.len() - i,
    {
        if names[i] == *name {
            assert(name_views(names@)[i as int] == name@);
            return true;
        }
        i += 1;
    }
    false
}

/// The label that `inst` names, if it is a `jump` or `from` with a label.
fn target_of(inst: &Instruction) -> (r: Option<&String>)
    ensures
        match r {
            Some(name) => inst@.target() == Some(name@),
            None => inst@.target() is None,
        },
{
    match inst {
        Instruction::Jump(Some(name)) => Some(name),
        Instruction::From(Some(name)) => Some(name),
        _ => None,
    }
}

/// Whether some line of `program` names the label `name`.
fn is_referenced(program: &Vec<Line>, name: &String) -> (r: bool)
    ensures
        r == referenced(line_views(program@), name@),
{
    let ghost lines = line_views(program@);
    let mut i: usize = 0;
    while i < program.len()
        invariant
            i <= program.len(),
            lines == line_views(program@),
            forall|k: int| 0 <= k < i ==> !refers(lines, k, name@),
        decreases program.len() - i,
    {
        match target_of(&program[i].inst) {
            Some(t) => {
                if *t == *name {
                    assert(refers(lines, i as int, name@));
                    return true;
                }
            },
            None => {},
        }
        i += 1;
    }
    false
}

/// Taking one more line into the label map adds that line's label, while
/// no label repeats.
proof fn lemma_label_map_step(program: Seq<LineView>, c: int)
    requires
        0 <= c < program.len(),
        forall|j: int| 0 <= j <= c ==> !repeats(program, j),
    ensures
        label_map(program, c + 1) == (match program[c].label {
            Some(name) => label_map(program, c).insert(name, c as usize),
            None => label_map(program, c),
        }),
{
    let small = label_map(program, c);
    let big = label_map(program, c + 1);
    let want = match program[c].label {
        Some(name) => small.insert(name, c as usize),
        None => small,
    };
    assert forall|name: Seq<char>| big.dom().contains(name) <==> want.dom().contains(name) by {
        if big.dom().contains(name) {
            let i = choose|i: int| i < c + 1 && labelled(program, i, name);
            assert(i < c || program[c].label == Some(name));
        }
        if small.dom().contains(name) {
            let i = choose|i: int| i < c && labelled(program, i, name);
            assert(i < c + 1 && labelled(program, i, name));
        }
        if program[c].label == Some(name) {
            assert(c < c + 1 && labelled(program, c, name));
        }
    }
    assert forall|name: Seq<char>| big.dom().contains(name) implies big[name] == want[name] by {
        let i1 = line_of(program, c + 1, name);
        assert(i1 < c + 1 && labelled(program, i1, name));
        if program[c].label == Some(name) {
            if i1 < c {
                assert(labelled(program, i1, program[c].label->0));
                assert(repeats(program, c));
            }
        } else {
            assert(i1 < c);
            let i0 = line_of(program, c, name);
            assert(i0 < c && labelled(program, i0, name));
            if i0 < i1 {
                assert(labelled(program, i0, program[i1].label->0));
                assert(repeats(program, i1));
            } else if i1 < i0 {
                assert(labelled(program, i1, program[i0].label->0));
                assert(repeats(program, i0));
            }
        }
    }
    assert(big =~= want);
}

/// Scans a program once for its labels, and then for how they are used.
/// A label that two lines carry ends the scan with that label. Else, labels
/// that are named and not carried are reported together. Else the table
/// comes back, with the labels that are carried and never named, if any.
pub fn scan_labels(program: &Vec<Line>) -> (r: ScanResult)
    ensures
        r@ == spec_scan(line_views(program@)),
        r matches ScanResult::Unused(_, table) ==> table.wf(),
        r matches ScanResult::Clean(table) ==> table.wf(),
{
    let ghost lines = line_views(program@);
    let n = program.len();
    let mut table = LabelTable::new();
    let mut c: usize = 0;
    assert(table@ =~= label_map(lines, 0));
    while c < n
        invariant
            c <= n,
            n == program.len(),
            lines == line_views(program@),
            table.wf(),
            table@ == label_map(lines, c as int),
            forall|j: int| 0 <= j < c ==> !repeats(lines, j),
        decreases n - c,
    {
        match &program[c].label {
            Some(lbl) => {
                assert(lines[c as int].label == Some(lbl@));
                if table.contains_key(lbl) {
                    proof {
                        let i = choose|i: int| i < c && labelled(lines, i, lbl@);
                        assert(labelled(lines, i, lines[c as int].label->0));
                        assert(repeats(lines, c as int));
                        assert(first_repeat(lines, c as int));
                        let j = choose|j: int| first_repeat(lines, j);
                        assert(j == c);
                    }
                    return ScanResult::Duplicate(lbl.clone());
                }
                proof {
                    if repeats(lines, c as int) {
                        let i = choose|i: int|
                            0 <= i < c && #[trigger] labelled(lines, i, lines[c as int].label->0);
                        assert(i < c && labelled(lines, i, lbl@));
                    }
                    lemma_label_map_step(lines, c as int);
                }
                table.insert(lbl.clone(), c);
            },
            None => {
                proof {
                    lemma_label_map_step(lines, c as int);
                }
            },
        }
        c += 1;
    }
    assert(!has_duplicate(lines));
    let mut missing: Vec<String> = Vec::new();
    let mut i: usize = 0;
    while i < n
        invariant
            i <= n,
            n == program.len(),
            lines == line_views(program@),
            table.wf(),
            table@ == label_map(lines, n as int),
            name_views(missing@) == missing_names(lines, i as int),
        decreases n - i,
    {
        match target_of(&program[i].inst) {
            Some(t) => {
                proof {
                    if defined(lines, t@) {
                        let k = choose|k: int| labelled(lines, k, t@);
                        assert(k < n && labelled(lines, k, t@));
                    }
                }
                if !table.contains_key(t) && !contains_name(&missing, t) {
                    let ghost before = name_views(missing@);
                    missing.push(t.clone());
                    assert(name_views(missing@) =~= before.push(t@));
                }
            },
            None => {},
        }
        i += 1;
    }
    if missing.len() > 0 {
        return ScanResult::Missing(missing);
    }
    let mut unused: Vec<String> = Vec::new();
    let mut k: usize = 0;
    while k < n
        invariant
            k <= n,
            n == program.len(),
            lines == line_views(program@),
            name_views(unused@) == unused_names(lines, k as int),
        decreases n - k,
    {
        match &program[k].label {
            Some(lbl) => {
                if !is_referenced(program, lbl) {
                    let ghost before = name_views(unused@);
                    unused.push(lbl.clone());
                    assert(name_views(unused@) =~= before.push(lbl@));
                }
            },
            None => {},
        }
        k += 1;
    }
    if unused.len() > 0 {
        ScanResult::Unused(unused, table)
    } else {
        ScanResult::Clean(table)
    }
}

/// A duplicate label is reported whatever else is wrong: a program with a
/// label carried twice scans as `Duplicate`, also where it names a label
/// that no line carries.
pub proof fn lemma_duplicate_comes_first(program: Seq<LineView>)
    requires
        has_duplicate(program),
    ensures
        spec_scan(program) is Duplicate,
{
}

/// The missing names are exactly the labels that some line names and no
/// line carries, each listed once.
pub proof fn lemma_missing_names(program: Seq<LineView>, n: int, name: Seq<char>)
    requires
        0 <= n <= program.len(),
    ensures
        missing_names(program, n).contains(name) <==> !defined(program, name) && exists|i: int|
            i < n && refers(program, i, name),
        missing_names(program, n).no_duplicates(),
    decreases n,
{
    if n > 0 {
        lemma_missing_names(program, n - 1, name);
        let before = missing_names(program, n - 1);
        let now = missing_names(program, n);
        match program[n - 1].inst.target() {
            Some(t) => {
                if !defined(program, t) && !before.contains(t) {
                    assert(now == before.push(t));
                    assert(now[now.len() - 1] == t);
                    assert forall|k: int| 0 <= k < before.len() implies now[k] == before[k] by {}
                    if before.contains(name) {
                        let k = choose|k: int| 0 <= k < before.len() && before[k] == name;
                        assert(now[k] == name);
                    }
                    if now.contains(name) && name != t {
                        let k = choose|k: int| 0 <= k < now.len() && now[k] == name;
                        assert(before[k] == name);
                    }
                    assert(refers(program, n - 1, t));
                    assert forall|i: int, j: int| 0 <= i < j < now.len() implies now[i] != now[j] by {
                        if j == now.len() - 1 {
                            assert(before[i] == now[i]);
                        }
                    }
                } else {
                    if name == t && !defined(program, t) {
                        assert(before.contains(name));
                    }
                }
            },
            None => {},
        }
        if exists|i: int| i < n && refers(program, i, name) {
            let i = choose|i: int| i < n && refers(program, i, name);
            if i < n - 1 {
                assert(i < n - 1 && refers(program, i, name));
            }
        }
        if exists|i: int| i < n - 1 && refers(program, i, name) {
            let i = choose|i: int| i < n - 1 && refers(program, i, name);
            assert(i < n && refers(program, i, name));
        }
    } else {
        assert(!missing_names(program, n).contains(name));
    }
}

/// The unused names are exactly the labels that some line carries and no
/// line names.
pub proof fn lemma_unused_names(program: Seq<LineView>, n: int, name: Seq<char>)
    requires
        0 <= n <= program.len(),
    ensures
        unused_names(program, n).contains(name) <==> !referenced(program, name) && exists|i: int|
            i < n && labelled(program, i, name),
    decreases n,
{
    if n > 0 {
        lemma_unused_names(program, n - 1, name);
        let before = unused_names(program, n - 1);
        let now = unused_names(program, n);
        match program[n - 1].label {
            Some(t) => {
                assert(labelled(program, n - 1, t));
                if !referenced(program, t) {
                    assert(now == before.push(t));
                    assert(now[now.len() - 1] == t);
                    if before.contains(name) {
                        let k = choose|k: int| 0 <= k < before.len() && before[k] == name;
                        assert(now[k] == name);
                    }
                    if now.contains(name) && name != t {
                        let k = choose|k: int| 0 <= k < now.len() && now[k] == name;
                        assert(before[k] == name);
                    }
                }
            },
            None => {},
        }
        if exists|i: int| i < n && labelled(program, i, name) {
            let i = choose|i: int| i < n && labelled(program, i, name);
            if i < n - 1 {
                assert(i < n - 1 && labelled(program, i, name));
            }
        }
        if exists|i: int| i < n - 1 && labelled(program, i, name) {
            let i = choose|i: int| i < n - 1 && labelled(program, i, name);
            assert(i < n && labelled(program, i, name));
        }
    } else {
        assert(!unused_names(program, n).contains(name));
    }
}

/// In a program without a duplicate, the label map binds each label to the
/// one line that carries it.
pub proof fn lemma_label_map(program: Seq<LineView>, i: int, name: Seq<char>)
    requires
        program.len() <= usize::MAX,
        !has_duplicate(program),
        labelled(program, i, name),
    ensures
        label_map(program, program.len() as int).contains_key(name),
        label_map(program, program.len() as int)[name] == i,
{
    let n = program.len() as int;
    assert(i < n && labelled(program, i, name));
    let k = line_of(program, n, name);
    assert(k < n && labelled(program, k, name));
    if k < i {
        assert(labelled(program, k, program[i].label->0));
        assert(repeats(program, i));
    } else if i < k {
        assert(labelled(program, i, program[k].label->0));
        assert(repeats(program, k));
    }
}

/// The table that a scan hands out.
pub open spec fn scanned_table(scan: Scan) -> Option<Map<Seq<char>, usize>> {
    match scan {
        Scan::Clean(table) => Some(table),
        Scan::Unused(_, table) => Some(table),
        _ => None,
    }
}

/// A scan that hands out a table vouches for the program: no label is
/// carried twice, every label that is named is carried, and the table binds
/// each label to the line that carries it. Where the scan is clean, every
/// label that is carried is named as well.
pub proof fn lemma_table_vouches(program: Seq<LineView>)
    requires
        program.len() <= usize::MAX,
        scanned_table(spec_scan(program)) is Some,
    ensures
        !has_duplicate(program),
        forall|i: int, name: Seq<char>| refers(program, i, name) ==> defined(program, name),
        forall|i: int, name: Seq<char>| #[trigger]
            labelled(program, i, name) ==> scanned_table(spec_scan(program))->0.contains_key(name)
                && scanned_table(spec_scan(program))->0[name] == i,
        spec_scan(program) is Clean ==> forall|i: int, name: Seq<char>| #[trigger]
            labelled(program, i, name) ==> referenced(program, name),
{
    let n = program.len() as int;
    assert forall|i: int, name: Seq<char>| refers(program, i, name) implies defined(
        program,
        name,
    ) by {
        lemma_missing_names(program, n, name);
        assert(i < n && refers(program, i, name));
        if !defined(program, name) {
            assert(missing_names(program, n).contains(name));
        }
    }
    assert forall|i: int, name: Seq<char>| #[trigger] labelled(program, i, name) implies scanned_table(
        spec_scan(program),
    )->0.contains_key(name) && scanned_table(spec_scan(program))->0[name] == i by {
        lemma_label_map(program, i, name);
    }
    if spec_scan(program) is Clean {
        assert forall|i: int, name: Seq<char>| #[trigger]
            labelled(program, i, name) implies referenced(program, name) by {
            lemma_unused_names(program, n, name);
            assert(i < n && labelled(program, i, name));
            if !referenced(program, name) {
                assert(unused_names(program, n).contains(name));
            }
        }
    }
}

} // verus!
