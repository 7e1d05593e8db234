//! What the user is shown of a change before it is made, and how the answers are read.
use vstd::prelude::*;
use crate::jobs::{BuiltJob, join_texts, joined_with};
use crate::module::Module;
use crate::module::change::{AtomicChange, Change, description, critical_files, labelled};
use crate::module::install::depend::ModuleMotivation;
use crate::module::install::instructions::{
    ModuleInstructions, ModifyType, modify_name, walk_order, change_counts, order_of, lemma_walk_order_bounds,
};
use crate::module::qualifier::ModuleQualifier;
use crate::output::{trimmed, parsed_count, trim_text, parse_count};
use crate::text::{push_text, decimal, decimal_text, lower_case, to_lower, chars_of, copy_string};
use crate::variables::evaluate::texts;
use crate::variables::token::text;

verus! {

/// A module change as it is scheduled: the module, its instructions, why it changes and how.
pub struct ScheduledChange {
    pub module: Module,
    pub instructions: ModuleInstructions,
    pub motivation: ModuleMotivation,
    pub what: ModifyType,
}

/// The line that announces a scheduled change: the module's name, its full qualifier, and its
/// version, or `removal` when it is removed.
pub open spec fn scheduled_text(c: ScheduledChange) -> Seq<char> {
    "    "@ + c.module.name@ + " ("@ + c.module.qualifier.unique_view() + "-"@ + (if c.what is Remove {
        "removal"@
    } else {
        c.module.version@
    }) + ")"@
}

/// The line that announces a scheduled change.
pub fn scheduled_line(c: &ScheduledChange) -> (r: String)
    ensures
        r@ == scheduled_text(*c),
{
    proof {
        reveal_strlit("    ");
        reveal_strlit(" (");
        reveal_strlit("-");
        reveal_strlit("removal");
        reveal_strlit(")");
    }
    let mut r = text("    ");
    push_text(&mut r, c.module.name.as_str());
    push_text(&mut r, " (");
    let unique = c.module.qualifier.unique();
    push_text(&mut r, unique.as_str());
    push_text(&mut r, "-");
    match c.what {
        ModifyType::Remove => push_text(&mut r, "removal"),
        _ => push_text(&mut r, c.module.version.as_str()),
    }
    push_text(&mut r, ")");
    r
}

/// Adds a line.
fn push_line(lines: &mut Vec<String>, line: String)
    ensures
        texts(final(lines)@) == texts(old(lines)@).push(line@),
{
    lines.push(line);
    assert(texts(lines@) =~= texts(old(lines)@).push(line@));
}

/// The lines that announce the scheduled changes, one for each.
pub fn scheduled_lines(changes: &Vec<ScheduledChange>) -> (r: Vec<String>)
    ensures
        texts(r@) == Seq::new(changes@.len(), |i: int| scheduled_text(changes@[i])),
{
    let mut r: Vec<String> = Vec::new();
    let mut i: usize = 0;
    while i < changes.len()
        invariant
            i <= changes@.len(),
            texts(r@) == Seq::new(i as nat, |k: int| scheduled_text(changes@[k])),
        decreases changes@.len() - i,
    {
        push_line(&mut r, scheduled_line(&changes[i]));
        assert(texts(r@) =~= Seq::new((i + 1) as nat, |k: int| scheduled_text(changes@[k])));
        i = i + 1;
    }
    r
}

/// An answer to whether the scheduled changes are applied.
pub enum Answer {
    Apply,
    Cancel,
    /// Show the detailed view first.
    Details,
    /// Not an answer; ask again.
    Again,
}

/// What an answer says, read from its lowercase trimmed text: empty or `y...` applies, `n...`
/// cancels, `f...` asks for the details.
pub open spec fn answer_to(t: Seq<char>) -> Answer {
    if t.len() == 0 || t[0] == 'y' {
        Answer::Apply
    } else if t[0] == 'n' {
        Answer::Cancel
    } else if t[0] == 'f' {
        Answer::Details
    } else {
        Answer::Again
    }
}

/// Reads the answer to "Apply changes or fine grained view? [Y/n/f]".
pub fn first_answer(response: &str) -> (r: Answer)
    ensures
        r == answer_to(trimmed(lower_case(response@))),
{
    let lowered = to_lower(response);
    let t = trim_text(lowered.as_str());
    let cs = chars_of(t.as_str());
    if cs.len() == 0 || cs[0] == 'y' {
        Answer::Apply
    } else if cs[0] == 'n' {
        Answer::Cancel
    } else if cs[0] == 'f' {
        Answer::Details
    } else {
        Answer::Again
    }
}

/// An answer to the question after the detailed view.
pub enum ContentAnswer {
    Apply,
    Cancel,
    /// Show the content with this number (counted from 1), then ask again.
    Preview(usize),
    /// Not an answer; ask again.
    Again,
}

/// What the answer after the detailed view says, read from its lowercase trimmed text: empty or
/// `y...` applies, `n...` cancels, and the number of one of the `files` contents previews it.
pub open spec fn content_answer_to(t: Seq<char>, files: nat) -> ContentAnswer {
    if t.len() == 0 || t[0] == 'y' {
        ContentAnswer::Apply
    } else if t[0] == 'n' {
        ContentAnswer::Cancel
    } else {
        match parsed_count(t) {
            Some(id) => if 1 <= id <= files {
                ContentAnswer::Preview(id)
            } else {
                ContentAnswer::Again
            },
            None => ContentAnswer::Again,
        }
    }
}

/// Reads the answer to "Apply changes or preview content? [Y/n/content]".
pub fn content_answer(response: &str, files: usize) -> (r: ContentAnswer)
    ensures
        r == content_answer_to(trimmed(lower_case(response@)), files as nat),
{
    let lowered = to_lower(response);
    let t = trim_text(lowered.as_str());
    let cs = chars_of(t.as_str());
    if cs.len() == 0 || cs[0] == 'y' {
        ContentAnswer::Apply
    } else if cs[0] == 'n' {
        ContentAnswer::Cancel
    } else {
        match parse_count(t.as_str()) {
            Some(id) => if 1 <= id && id <= files {
                ContentAnswer::Preview(id)
            } else {
                ContentAnswer::Again
            },
            None => ContentAnswer::Again,
        }
    }
}

/// The full qualifiers of some modules.
pub open spec fn uniques(qs: Seq<ModuleQualifier>) -> Seq<Seq<char>> {
    Seq::new(qs.len(), |i: int| qs[i].unique_view())
}

/// A list of modules after a label, or nothing when there are none.
pub open spec fn reasons(label: Seq<char>, qs: Seq<ModuleQualifier>) -> Seq<char> {
    if qs.len() == 0 {
        Seq::empty()
    } else {
        label + joined_with(uniques(qs), ", "@)
    }
}

/// The line that says what happens to a module and why.
pub open spec fn type_text(c: ScheduledChange) -> Seq<char> {
    "        type: "@ + modify_name(c.what) + reasons(", depends on: "@, c.motivation.depends@) + reasons(
        ", because of: "@,
        c.motivation.because@,
    )
}

/// The changes of the picked jobs, each with whether its job runs as root, in order.
pub open spec fn picked_changes(jobs: Seq<BuiltJob>, picked: Seq<bool>) -> Seq<(Change, bool)> {
    let order = walk_order(change_counts(jobs), picked);
    Seq::new(
        order.len(),
        |p: int| (jobs[order[p].0 as int].changes@[order[p].1 as int], jobs[order[p].0 as int].root),
    )
}

/// The changes the instructions revert.
pub open spec fn reverted_changes(i: ModuleInstructions) -> Seq<(Change, bool)> {
    match i.old {
        Some(o) => picked_changes(o.jobs@, i.revert@),
        None => Seq::empty(),
    }
}

/// The changes the instructions apply.
pub open spec fn applied_changes(i: ModuleInstructions) -> Seq<(Change, bool)> {
    match i.new {
        Some(n) => picked_changes(n.jobs@, i.apply@),
        None => Seq::empty(),
    }
}

/// A content as it is listed: its number and its label.
pub open spec fn file_entry(name: Seq<char>, id: nat) -> Seq<char> {
    decimal(id) + " ("@ + name + ")"@
}

/// The contents of a change, numbered from `first + 1` on, or nothing when it has none.
pub open spec fn files_text(files: Seq<(Seq<char>, Seq<char>)>, first: nat) -> Seq<char> {
    if files.len() == 0 {
        Seq::empty()
    } else {
        ", content: "@ + joined_with(
            Seq::new(files.len(), |k: int| file_entry(files[k].0, first + k as nat + 1)),
            ", "@,
        )
    }
}

/// The two lines that show a change: what it does, and how it is carried out.
pub open spec fn change_block(c: Change, root: bool, apply: bool, first: nat) -> Seq<Seq<char>> {
    seq![
        "    "@ + description(c),
        "        action: "@ + (if apply { "applying"@ } else { "reverting"@ }) + files_text(critical_files(c), first)
            + (if root { "root"@ } else { Seq::empty() }),
    ]
}

/// The contents that can be previewed of some changes, in order.
pub open spec fn item_files(items: Seq<(Change, bool)>) -> Seq<Seq<char>>
    decreases items.len(),
{
    if items.len() == 0 {
        Seq::empty()
    } else {
        let last = critical_files(items.last().0);
        item_files(items.drop_last()) + Seq::new(last.len(), |k: int| last[k].1)
    }
}

/// The lines that show some changes, their contents numbered from `first + 1` on.
pub open spec fn item_lines(items: Seq<(Change, bool)>, apply: bool, first: nat) -> Seq<Seq<char>>
    decreases items.len(),
{
    if items.len() == 0 {
        Seq::empty()
    } else {
        item_lines(items.drop_last(), apply, first) + change_block(
            items.last().0,
            items.last().1,
            apply,
            first + item_files(items.drop_last()).len(),
        )
    }
}

/// The contents of a scheduled change that can be previewed.
pub open spec fn module_files(c: ScheduledChange) -> Seq<Seq<char>> {
    item_files(reverted_changes(c.instructions)) + item_files(applied_changes(c.instructions))
}

/// The lines that show a scheduled change in detail, its contents numbered from `first + 1` on.
pub open spec fn module_block(c: ScheduledChange, first: nat) -> Seq<Seq<char>> {
    let old = reverted_changes(c.instructions);
    let new = applied_changes(c.instructions);
    seq!["Module: "@ + c.module.qualifier.unique_view(), type_text(c)] + item_lines(old, false, first)
        + item_lines(new, true, first + item_files(old).len()) + seq![Seq::<char>::empty()]
}

/// The contents of the scheduled changes, in the order they are numbered.
pub open spec fn detail_files(cs: Seq<ScheduledChange>) -> Seq<Seq<char>>
    decreases cs.len(),
{
    if cs.len() == 0 {
        Seq::empty()
    } else {
        detail_files(cs.drop_last()) + module_files(cs.last())
    }
}

/// Adds the lines that show a scheduled change in detail, and its contents.
fn add_module(c: &ScheduledChange, lines: &mut Vec<String>, files: &mut Vec<String>)
    ensures
        texts(final(lines)@) == texts(old(lines)@) + module_block(*c, old(files)@.len()),
        texts(final(files)@) == texts(old(files)@) + module_files(*c),
{
    proof {
        reveal_strlit("Module: ");
        reveal_strlit("");
    }
    let ghost start_lines = texts(lines@);
    let ghost first = files@.len();
    let mut head = text("Module: ");
    let unique = c.module.qualifier.unique();
    push_text(&mut head, unique.as_str());
    assert(head@ == "Module: "@ + c.module.qualifier.unique_view());
    push_line(lines, head);
    let t = type_line(c);
    push_line(lines, t);
    let ghost mid_files = texts(files@);
    let ghost mid_lines = texts(lines@);
    assert(mid_lines =~= start_lines + seq!["Module: "@ + c.module.qualifier.unique_view(), type_text(*c)]);
    let ghost old_items = reverted_changes(c.instructions);
    let ghost new_items = applied_changes(c.instructions);
    match &c.instructions.old {
        Some(o) => add_jobs(&o.jobs, &c.instructions.revert, false, lines, files),
        None => {
            assert(old_items =~= Seq::empty());
            assert(texts(lines@) =~= mid_lines + item_lines(old_items, false, first));
            assert(texts(files@) =~= mid_files + item_files(old_items));
        },
    }
    assert(texts(lines@) == mid_lines + item_lines(old_items, false, first));
    assert(texts(files@) == mid_files + item_files(old_items));
    assert(texts(files@).len() == files@.len());
    let ghost after_old = files@.len();
    let ghost old_lines = texts(lines@);
    let ghost old_files = texts(files@);
    assert(after_old == first + item_files(old_items).len());
    match &c.instructions.new {
        Some(n) => add_jobs(&n.jobs, &c.instructions.apply, true, lines, files),
        None => {
            assert(new_items =~= Seq::empty());
            assert(texts(lines@) =~= old_lines + item_lines(new_items, true, after_old));
            assert(texts(files@) =~= old_files + item_files(new_items));
        },
    }
    assert(texts(lines@) == old_lines + item_lines(new_items, true, after_old));
    assert(texts(files@) == old_files + item_files(new_items));
    let e = text("");
    assert(e@ =~= Seq::<char>::empty());
    let ghost new_lines = texts(lines@);
    push_line(lines, e);
    proof {
        assert(texts(lines@) =~= new_lines + seq![Seq::<char>::empty()]);
        assert(after_old == first + item_files(old_items).len());
        assert(texts(files@) =~= mid_files + module_files(*c));
        assert(texts(lines@) =~= start_lines + module_block(*c, first));
    }
}

/// The detailed view of the scheduled changes.
pub open spec fn detail_lines(cs: Seq<ScheduledChange>) -> Seq<Seq<char>>
    decreases cs.len(),
{
    if cs.len() == 0 {
        seq!["These specific changes are going to be applied:"@]
    } else {
        detail_lines(cs.drop_last()) + module_block(cs.last(), detail_files(cs.drop_last()).len())
    }
}

/// Joins the full qualifiers of some modules with commas.
fn unique_list(qs: &Vec<ModuleQualifier>) -> (r: String)
    ensures
        r@ == joined_with(uniques(qs@), ", "@),
{
    let mut names: Vec<String> = Vec::new();
    let mut i: usize = 0;
    while i < qs.len()
        invariant
            i <= qs@.len(),
            texts(names@) == uniques(qs@.take(i as int)),
        decreases qs@.len() - i,
    {
        push_line(&mut names, qs[i].unique());
        assert(texts(names@) =~= uniques(qs@.take(i + 1)));
        i = i + 1;
    }
    assert(qs@.take(qs@.len() as int) =~= qs@);
    join_texts(&names, ", ")
}

/// The line that says what happens to a module and why.
pub fn type_line(c: &ScheduledChange) -> (r: String)
    ensures
        r@ == type_text(*c),
{
    proof {
        reveal_strlit("        type: ");
        reveal_strlit(", depends on: ");
        reveal_strlit(", because of: ");
    }
    let mut r = text("        type: ");
    push_text(&mut r, c.what.name());
    if c.motivation.depends.len() > 0 {
        push_text(&mut r, ", depends on: ");
        let list = unique_list(&c.motivation.depends);
        push_text(&mut r, list.as_str());
    }
    if c.motivation.because.len() > 0 {
        push_text(&mut r, ", because of: ");
        let list = unique_list(&c.motivation.because);
        push_text(&mut r, list.as_str());
    }
    r
}

/// Adds the two lines that show a change, and its contents.
fn add_change(c: &Change, root: bool, apply: bool, lines: &mut Vec<String>, files: &mut Vec<String>)
    ensures
        texts(final(lines)@) == texts(old(lines)@) + change_block(*c, root, apply, old(files)@.len()),
        texts(final(files)@) == texts(old(files)@) + Seq::new(
            critical_files(*c).len(),
            |k: int| critical_files(*c)[k].1,
        ),
{
    proof {
        reveal_strlit("    ");
        reveal_strlit("        action: ");
        reveal_strlit("applying");
        reveal_strlit("reverting");
        reveal_strlit(", content: ");
        reveal_strlit(" (");
        reveal_strlit(")");
        reveal_strlit("root");
    }
    let ghost cf = critical_files(*c);
    let ghost first = old(files)@.len();
    let mut head = text("    ");
    let described = c.describe();
    push_text(&mut head, described.as_str());
    let fs = c.files();
    let mut entries: Vec<String> = Vec::new();
    let mut k: usize = 0;
    while k < fs.len()
        invariant
            labelled(fs@) == cf,
            k <= fs@.len(),
            files@.len() == first + k,
            texts(files@) == texts(old(files)@) + Seq::new(k as nat, |x: int| cf[x].1),
            texts(entries@) == Seq::new(k as nat, |x: int| file_entry(cf[x].0, first + x as nat + 1)),
        decreases fs@.len() - k,
    {
        assert(fs@[k as int].0@ == cf[k as int].0 && fs@[k as int].1@ == cf[k as int].1);
        push_line(files, copy_string(&fs[k].1));
        let id = files.len();
        let mut entry = decimal_text(id);
        push_text(&mut entry, " (");
        push_text(&mut entry, fs[k].0.as_str());
        push_text(&mut entry, ")");
        push_line(&mut entries, entry);
        assert(texts(files@) =~= texts(old(files)@) + Seq::new((k + 1) as nat, |x: int| cf[x].1));
        assert(texts(entries@) =~= Seq::new((k + 1) as nat, |x: int| file_entry(cf[x].0, first + x as nat + 1)));
        k = k + 1;
    }
    assert(cf.len() == fs@.len());
    assert(texts(entries@) == Seq::new(cf.len(), |x: int| file_entry(cf[x].0, first + x as nat + 1)));
    let mut action = text("        action: ");
    if apply {
        push_text(&mut action, "applying");
    } else {
        push_text(&mut action, "reverting");
    }
    if entries.len() > 0 {
        push_text(&mut action, ", content: ");
        let list = join_texts(&entries, ", ");
        push_text(&mut action, list.as_str());
    }
    if root {
        push_text(&mut action, "root");
    }
    assert(head@ == "    "@ + description(*c));
    assert(action@ == "        action: "@ + (if apply { "applying"@ } else { "reverting"@ }) + files_text(cf, first)
        + (if root { "root"@ } else { Seq::empty() }));
    let ghost before = texts(lines@);
    push_line(lines, head);
    push_line(lines, action);
    assert(texts(lines@) =~= before + change_block(*c, root, apply, first));
    assert(texts(files@) =~= texts(old(files)@) + Seq::new(cf.len(), |x: int| cf[x].1));
}

proof fn lemma_item_step(items: Seq<(Change, bool)>, p: int, apply: bool, first: nat)
    requires
        0 <= p < items.len(),
    ensures
        item_files(items.take(p + 1)) == item_files(items.take(p)) + Seq::new(
            critical_files(items[p].0).len(),
            |k: int| critical_files(items[p].0)[k].1,
        ),
        item_lines(items.take(p + 1), apply, first) == item_lines(items.take(p), apply, first) + change_block(
            items[p].0,
            items[p].1,
            apply,
            first + item_files(items.take(p)).len(),
        ),
{
    assert(items.take(p + 1).drop_last() =~= items.take(p));
}

/// Adds the lines that show the changes of the picked jobs, and their contents.
fn add_jobs(jobs: &Vec<BuiltJob>, picked: &Vec<bool>, apply: bool, lines: &mut Vec<String>, files: &mut Vec<String>)
    ensures
        texts(final(lines)@) == texts(old(lines)@) + item_lines(picked_changes(jobs@, picked@), apply, old(files)@.len()),
        texts(final(files)@) == texts(old(files)@) + item_files(picked_changes(jobs@, picked@)),
{
    let ghost items = picked_changes(jobs@, picked@);
    let ghost first = old(files)@.len();
    let order = order_of(jobs, picked);
    let count = jobs.len();
    let mut p: usize = 0;
    while p < order.len()
        invariant
            count == jobs@.len(),
            first == old(files)@.len(),
            order@ == walk_order(change_counts(jobs@), picked@),
            items == picked_changes(jobs@, picked@),
            items.len() == order@.len(),
            p <= order@.len(),
            texts(lines@) == texts(old(lines)@) + item_lines(items.take(p as int), apply, first),
            texts(files@) == texts(old(files)@) + item_files(items.take(p as int)),
        decreases order@.len() - p,
    {
        proof {
            lemma_walk_order_bounds(change_counts(jobs@), picked@, p as int);
            lemma_item_step(items, p as int, apply, first);
        }
        let (j, k) = order[p];
        let job = &jobs[j];
        assert(items[p as int] == (job.changes@[k as int], job.root));
        assert(texts(files@).len() == files@.len());
        assert(texts(old(files)@).len() == old(files)@.len());
        assert((texts(old(files)@) + item_files(items.take(p as int))).len() == old(files)@.len() + item_files(
            items.take(p as int),
        ).len());
        assert(files@.len() == first + item_files(items.take(p as int)).len());
        add_change(&job.changes[k], job.root, apply, lines, files);
        assert(texts(lines@) =~= texts(old(lines)@) + item_lines(items.take(p + 1), apply, first));
        assert(texts(files@) =~= texts(old(files)@) + item_files(items.take(p + 1)));
        p = p + 1;
    }
    assert(items.take(order@.len() as int) =~= items);
}

proof fn lemma_detail_step(cs: Seq<ScheduledChange>, i: int)
    requires
        0 <= i < cs.len(),
    ensures
        detail_files(cs.take(i + 1)) == detail_files(cs.take(i)) + module_files(cs[i]),
        detail_lines(cs.take(i + 1)) == detail_lines(cs.take(i)) + module_block(cs[i], detail_files(cs.take(i)).len()),
{
    assert(cs.take(i + 1).drop_last() =~= cs.take(i));
}

/// The detailed view of the scheduled changes, and the contents it numbers: content `n` is the
/// `n`-th of the second list.
pub fn detail_view(changes: &Vec<ScheduledChange>) -> (r: (Vec<String>, Vec<String>))
    ensures
        texts(r.0@) == detail_lines(changes@),
        texts(r.1@) == detail_files(changes@),
{
    proof {
        reveal_strlit("These specific changes are going to be applied:");
        reveal_strlit("Module: ");
        reveal_strlit("");
    }
    let mut lines: Vec<String> = Vec::new();
    let mut files: Vec<String> = Vec::new();
    push_line(&mut lines, text("These specific changes are going to be applied:"));
    let mut i: usize = 0;
    proof {
        assert(changes@.take(0) =~= Seq::<ScheduledChange>::empty());
        assert(texts(lines@) =~= detail_lines(changes@.take(0)));
        assert(texts(files@) =~= detail_files(changes@.take(0)));
    }
    while i < changes.len()
        invariant
            i <= changes@.len(),
            texts(lines@) == detail_lines(changes@.take(i as int)),
            texts(files@) == detail_files(changes@.take(i as int)),
        decreases changes@.len() - i,
    {
        proof {
            lemma_detail_step(changes@, i as int);
        }
        add_module(&changes[i], &mut lines, &mut files);
        i = i + 1;
    }
    assert(changes@.take(changes@.len() as int) =~= changes@);
    (lines, files)
}

} // verus!
