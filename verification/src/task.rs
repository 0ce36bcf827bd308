use vstd::prelude::*;

use vstd::seq_lib::group_to_multiset_ensures;

use crate::numfmt::{dec_digits, hundredths_chars, hundredths_to_string};
use crate::timestamp::{
    civil_of_epoch, due_before, due_display_chars, format_due, parse_compact, parse_due_date,
    MAX_CIVIL_EPOCH, MIN_CIVIL_EPOCH,
};

verus! {

/// One pending work item of an export snapshot.  The urgency score is
/// carried in hundredths, so that ordering and two-decimal rendering are
/// exact.
#[derive(Debug)]
pub struct Task {
    pub id: u32,
    pub description: Option<String>,
    pub priority: Option<String>,
    pub due: Option<String>,
    pub urgency: Option<i64>,
}

fn clone_opt_string(s: &Option<String>) -> (r: Option<String>)
    ensures
        r == *s,
{
    match s {
        Some(x) => Some(x.clone()),
        None => None,
    }
}

impl Clone for Task {
    fn clone(&self) -> (r: Self)
        ensures
            r == *self,
    {
        Task {
            id: self.id,
            description: clone_opt_string(&self.description),
            priority: clone_opt_string(&self.priority),
            due: clone_opt_string(&self.due),
            urgency: self.urgency,
        }
    }
}

/// Whether two optional strings hold the same characters.
pub open spec fn opt_string_eq_spec(a: Option<String>, b: Option<String>) -> bool {
    match (a, b) {
        (Some(x), Some(y)) => x@ == y@,
        (None, None) => true,
        _ => false,
    }
}

fn opt_string_eq(a: &Option<String>, b: &Option<String>) -> (r: bool)
    ensures
        r == opt_string_eq_spec(*a, *b),
{
    match (a, b) {
        (Some(x), Some(y)) => *x == *y,
        (None, None) => true,
        _ => false,
    }
}

impl PartialEq for Task {
    fn eq(&self, other: &Self) -> bool {
        self.id == other.id && opt_string_eq(&self.description, &other.description)
            && opt_string_eq(&self.priority, &other.priority) && opt_string_eq(
            &self.due,
            &other.due,
        ) && match (self.urgency, other.urgency) {
            (Some(x), Some(y)) => x == y,
            (None, None) => true,
            _ => false,
        }
    }
}

impl vstd::std_specs::cmp::PartialEqSpecImpl for Task {
    open spec fn obeys_eq_spec() -> bool {
        true
    }

    open spec fn eq_spec(&self, other: &Self) -> bool {
        &&& self.id == other.id
        &&& opt_string_eq_spec(self.description, other.description)
        &&& opt_string_eq_spec(self.priority, other.priority)
        &&& opt_string_eq_spec(self.due, other.due)
        &&& self.urgency == other.urgency
    }
}

// ---------------------------------------------------------------------------
// The three-key comparator.
// ---------------------------------------------------------------------------
/// The instant a task's due field denotes, if present and well formed.
pub open spec fn due_opt_key(d: Option<String>) -> Option<int> {
    match d {
        Some(s) => parse_compact(s@),
        None => None,
    }
}

/// The urgency key distinguishes two tasks only when both scores are
/// present and differ; any comparison that cannot be resolved numerically
/// is a tie that defers to the later keys.
pub open spec fn urgency_ties(a: Task, b: Task) -> bool {
    match (a.urgency, b.urgency) {
        (Some(x), Some(y)) => x == y,
        _ => true,
    }
}

/// `a` strictly precedes `b`: urgency descending where it distinguishes,
/// then due instant ascending with absence first, then id ascending.
pub open spec fn task_before(a: Task, b: Task) -> bool {
    if !urgency_ties(a, b) {
        match (a.urgency, b.urgency) {
            (Some(x), Some(y)) => x > y,
            _ => false,
        }
    } else if due_opt_key(a.due) != due_opt_key(b.due) {
        due_before(due_opt_key(a.due), due_opt_key(b.due))
    } else {
        a.id < b.id
    }
}

/// The comparator never says both "a before b" and "b before a".
proof fn lemma_task_before_asymmetric(a: Task, b: Task)
    ensures
        !(task_before(a, b) && task_before(b, a)),
{
}

fn due_key_exec(d: &Option<String>) -> (r: Option<i64>)
    ensures
        match r {
            Some(t) => due_opt_key(*d) == Some(t as int),
            None => due_opt_key(*d) is None,
        },
{
    match d {
        Some(s) => match parse_due_date(s.as_str()) {
            Ok(t) => Some(t),
            Err(_) => None,
        },
        None => None,
    }
}

fn task_before_exec(a: &Task, b: &Task) -> (r: bool)
    ensures
        r == task_before(*a, *b),
{
    if let (Some(x), Some(y)) = (a.urgency, b.urgency) {
        if x != y {
            return x > y;
        }
    }
    let da = due_key_exec(&a.due);
    let db = due_key_exec(&b.due);
    match (da, db) {
        (None, None) => a.id < b.id,
        (None, Some(_)) => true,
        (Some(_), None) => false,
        (Some(x), Some(y)) => if x < y {
            true
        } else if y < x {
            false
        } else {
            a.id < b.id
        },
    }
}

/// The instant an optional compact timestamp denotes, if present and well
/// formed.
pub open spec fn due_ref_key(d: Option<&str>) -> Option<int> {
    match d {
        Some(s) => parse_compact(s@),
        None => None,
    }
}

/// Order two optional compact due timestamps by the instants they denote:
/// an absent or malformed timestamp sorts before every well-formed one,
/// and two well-formed ones compare as instants.
pub fn compare_optional_timestamps(a: Option<&str>, b: Option<&str>) -> (r: core::cmp::Ordering)
    ensures
        r == core::cmp::Ordering::Equal <==> due_ref_key(a) == due_ref_key(b),
        r == core::cmp::Ordering::Less <==> due_before(due_ref_key(a), due_ref_key(b)),
        r == core::cmp::Ordering::Greater <==> due_before(due_ref_key(b), due_ref_key(a)),
{
    let ka = match a {
        Some(s) => match parse_due_date(s) {
            Ok(t) => Some(t),
            Err(_) => None,
        },
        None => None,
    };
    let kb = match b {
        Some(s) => match parse_due_date(s) {
            Ok(t) => Some(t),
            Err(_) => None,
        },
        None => None,
    };
    match (ka, kb) {
        (None, None) => core::cmp::Ordering::Equal,
        (None, Some(_)) => core::cmp::Ordering::Less,
        (Some(_), None) => core::cmp::Ordering::Greater,
        (Some(x), Some(y)) => if x < y {
            core::cmp::Ordering::Less
        } else if y < x {
            core::cmp::Ordering::Greater
        } else {
            core::cmp::Ordering::Equal
        },
    }
}

// ---------------------------------------------------------------------------
// Ordering a snapshot.
// ---------------------------------------------------------------------------
/// `x` placed before the first element it strictly precedes.
pub open spec fn insert_sorted(x: Task, s: Seq<Task>) -> Seq<Task>
    decreases s.len(),
{
    if s.len() == 0 {
        seq![x]
    } else if task_before(x, s[0]) {
        seq![x] + s
    } else {
        seq![s[0]] + insert_sorted(x, s.drop_first())
    }
}

/// The deterministic order of a snapshot: each element inserted in turn.
pub open spec fn sort_seq(s: Seq<Task>) -> Seq<Task>
    decreases s.len(),
{
    if s.len() == 0 {
        Seq::empty()
    } else {
        insert_sorted(s.last(), sort_seq(s.drop_last()))
    }
}

/// No neighbour is strictly preceded by the one after it.
pub open spec fn no_adjacent_inversion(s: Seq<Task>) -> bool {
    forall|i: int, j: int|
        #![trigger s[i], s[j]]
        0 <= i && j == i + 1 && j < s.len() ==> !task_before(s[j], s[i])
}

/// Inserting at a found boundary is what `insert_sorted` denotes.
proof fn lemma_insert_sorted_at(x: Task, s: Seq<Task>, j: int)
    requires
        0 <= j <= s.len(),
        forall|k: int| 0 <= k < j ==> !task_before(x, #[trigger] s[k]),
        j == s.len() || task_before(x, s[j]),
    ensures
        insert_sorted(x, s) == s.insert(j, x),
    decreases s.len(),
{
    if s.len() == 0 {
        assert(insert_sorted(x, s) =~= s.insert(j, x));
    } else if j == 0 {
        assert(insert_sorted(x, s) =~= s.insert(0, x));
    } else {
        assert(!task_before(x, s[0]));
        lemma_insert_sorted_at(x, s.drop_first(), j - 1);
        assert(seq![s[0]] + s.drop_first().insert(j - 1, x) =~= s.insert(j, x));
    }
}

fn insert_task(v: &mut Vec<Task>, x: Task)
    requires
        no_adjacent_inversion(old(v)@),
    ensures
        final(v)@ == insert_sorted(x, old(v)@),
        final(v)@.to_multiset() == old(v)@.to_multiset().insert(x),
        no_adjacent_inversion(final(v)@),
{
    let mut j: usize = 0;
    loop
        invariant
            j <= v@.len(),
            v@ == old(v)@,
            forall|k: int| 0 <= k < j ==> !task_before(x, #[trigger] v@[k]),
        ensures
            j <= v@.len(),
            v@ == old(v)@,
            forall|k: int| 0 <= k < j ==> !task_before(x, #[trigger] v@[k]),
            j == v@.len() || task_before(x, v@[j as int]),
        decreases v@.len() - j,
    {
        if j == v.len() {
            break ;
        }
        if task_before_exec(&x, &v[j]) {
            break ;
        }
        j = j + 1;
    }
    proof {
        lemma_insert_sorted_at(x, v@, j as int);
        vstd::seq_lib::to_multiset_insert(v@, j as int, x);
    }
    let ghost before = v@;
    let ghost jj = j as int;
    v.insert(j, x);
    proof {
        assert(v@ =~= before.take(jj) + seq![x] + before.skip(jj));
        assert forall|i: int, jn: int|
            0 <= i && jn == i + 1 && jn < v@.len() implies !task_before(v@[jn], v@[i]) by {
            if jn < jj {
                assert(v@[i] == before[i] && v@[jn] == before[jn]);
                assert(!task_before(before[jn], before[i]));
            } else if jn == jj {
                assert(v@[i] == before[i] && v@[jn] == x);
                assert(!task_before(x, before[i]));
            } else if i == jj {
                assert(v@[i] == x && v@[jn] == before[i]);
                assert(task_before(x, before[i]));
                lemma_task_before_asymmetric(x, before[i]);
            } else {
                assert(v@[i] == before[i - 1] && v@[jn] == before[i]);
                assert(!task_before(before[i], before[i - 1]));
            }
        }
    }
}

/// Reorder a snapshot in place into the deterministic three-key order:
/// the result is exactly `sort_seq` of the input, a permutation of it,
/// with no neighbouring pair inverted.
pub fn sort_tasks(tasks: &mut Vec<Task>)
    ensures
        final(tasks)@ == sort_seq(old(tasks)@),
        final(tasks)@.to_multiset() == old(tasks)@.to_multiset(),
        no_adjacent_inversion(final(tasks)@),
{
    broadcast use group_to_multiset_ensures;

    let mut sorted: Vec<Task> = Vec::new();
    let mut i: usize = 0;
    while i < tasks.len()
        invariant
            i <= tasks@.len(),
            tasks@ == old(tasks)@,
            sorted@ == sort_seq(tasks@.take(i as int)),
            sorted@.to_multiset() == tasks@.take(i as int).to_multiset(),
            no_adjacent_inversion(sorted@),
        decreases tasks@.len() - i,
    {
        let t = tasks[i].clone();
        insert_task(&mut sorted, t);
        proof {
            assert(tasks@.take(i + 1).drop_last() =~= tasks@.take(i as int));
            assert(tasks@.take(i + 1).last() == tasks@[i as int]);
            assert(tasks@.take(i + 1) =~= tasks@.take(i as int).push(tasks@[i as int]));
            vstd::seq_lib::to_multiset_build(tasks@.take(i as int), tasks@[i as int]);
        }
        i = i + 1;
    }
    proof {
        assert(tasks@.take(tasks@.len() as int) =~= tasks@);
    }
    *tasks = sorted;
}

// ---------------------------------------------------------------------------
// Rendering one task line.
// ---------------------------------------------------------------------------
/// Relies on String::push: appends exactly the one character.
#[verifier::external_body]
fn push_char(s: &mut String, c: char)
    ensures
        final(s)@ == old(s)@ + seq![c],
{
    s.push(c);
}

/// `parts` joined by `sep`, with no leading or trailing separator.
pub open spec fn join_with(parts: Seq<Seq<char>>, sep: Seq<char>) -> Seq<char>
    decreases parts.len(),
{
    if parts.len() == 0 {
        Seq::empty()
    } else if parts.len() == 1 {
        parts[0]
    } else {
        parts[0] + sep + join_with(parts.drop_first(), sep)
    }
}

proof fn lemma_join_with_push(parts: Seq<Seq<char>>, x: Seq<char>, sep: Seq<char>)
    requires
        parts.len() >= 1,
    ensures
        join_with(parts.push(x), sep) == join_with(parts, sep) + sep + x,
    decreases parts.len(),
{
    if parts.len() == 1 {
        reveal_with_fuel(join_with, 3);
        assert(parts.push(x).drop_first() =~= seq![x]);
        assert(join_with(parts.push(x), sep) =~= parts[0] + sep + x);
    } else {
        assert(parts.push(x).drop_first() =~= parts.drop_first().push(x));
        lemma_join_with_push(parts.drop_first(), x, sep);
    }
}

pub open spec fn desc_parts(t: Task) -> Seq<Seq<char>> {
    match t.description {
        Some(d) => seq![d@],
        None => Seq::empty(),
    }
}

pub open spec fn prio_parts(t: Task) -> Seq<Seq<char>> {
    match t.priority {
        Some(p) => seq![seq!['P', 'r', 'i', 'o', ':', ' '] + p@],
        None => Seq::empty(),
    }
}

/// The rendered due segment: present exactly when the due field exists,
/// parses, and its shifted instant still has a civil form.
pub open spec fn due_parts(t: Task, off: int) -> Seq<Seq<char>> {
    match t.due {
        Some(s) => match parse_compact(s@) {
            Some(instant) => if MIN_CIVIL_EPOCH <= instant + off <= MAX_CIVIL_EPOCH {
                seq![
                    seq!['D', 'u', 'e', ':', ' '] + due_display_chars(civil_of_epoch(instant + off)),
                ]
            } else {
                Seq::empty()
            },
            None => Seq::empty(),
        },
        None => Seq::empty(),
    }
}

pub open spec fn urgency_parts(t: Task) -> Seq<Seq<char>> {
    match t.urgency {
        Some(u) => seq![seq!['U', 'r', 'g', 'e', 'n', 'c', 'y', ':', ' '] + hundredths_chars(
            u as int,
        )],
        None => Seq::empty(),
    }
}

/// The comma-joined segments of one task, in their fixed order.
pub open spec fn task_parts(t: Task, off: int) -> Seq<Seq<char>> {
    desc_parts(t) + prio_parts(t) + due_parts(t, off) + urgency_parts(t)
}

/// The views of a sequence of strings.
pub open spec fn string_views(s: Seq<String>) -> Seq<Seq<char>> {
    Seq::new(s.len(), |i: int| s[i]@)
}

/// The rendered line of each task in turn.
pub open spec fn task_lines(tasks: Seq<Task>, off: int) -> Seq<Seq<char>> {
    Seq::new(tasks.len(), |i: int| task_line(tasks[i], off))
}

/// One rendered line: the id, one space, then the joined segments.
pub open spec fn task_line(t: Task, off: int) -> Seq<char> {
    dec_digits(t.id as nat) + seq![' '] + join_with(task_parts(t, off), seq![',', ' '])
}

impl Task {
    /// The display line of one task, for a zone `tz_offset_secs` ahead
    /// of UTC: the id, then description, priority, due time and urgency,
    /// with no placeholder and no dangling separator for an absent field
    /// (or, for the due time, a malformed one).
    pub fn construct_task_output(&self, tz_offset_secs: i64) -> (r: String)
        requires
            -172800 <= tz_offset_secs <= 172800,
        ensures
            r@ == task_line(*self, tz_offset_secs as int),
    {
        let mut parts: Vec<String> = Vec::new();
        if let Some(d) = &self.description {
            parts.push(d.clone());
        }
        proof {
            assert(string_views(parts@) =~= desc_parts(*self));
        }
        if let Some(p) = &self.priority {
            proof {
                reveal_strlit("Prio: ");
            }
            let mut seg: String = "Prio: ".to_owned();
            seg.append(p.as_str());
            proof {
                assert(seg@ =~= seq!['P', 'r', 'i', 'o', ':', ' '] + p@);
            }
            parts.push(seg);
        }
        proof {
            assert(string_views(parts@) =~= desc_parts(*self) + prio_parts(*self));
        }
        if let Some(due_s) = &self.due {
            match parse_due_date(due_s.as_str()) {
                Ok(instant) => match format_due(instant, tz_offset_secs) {
                    Some(line) => {
                        proof {
                            reveal_strlit("Due: ");
                        }
                        let mut seg: String = "Due: ".to_owned();
                        seg.append(line.as_str());
                        proof {
                            assert(seg@ =~= seq!['D', 'u', 'e', ':', ' '] + line@);
                        }
                        parts.push(seg);
                    },
                    None => {},
                },
                Err(_) => {},
            }
        }
        proof {
            assert(string_views(parts@) =~= desc_parts(*self) + prio_parts(*self) + due_parts(
                *self,
                tz_offset_secs as int,
            ));
        }
        if let Some(u) = self.urgency {
            proof {
                reveal_strlit("Urgency: ");
            }
            let mut seg: String = "Urgency: ".to_owned();
            let digits = hundredths_to_string(u);
            seg.append(digits.as_str());
            proof {
                assert(seg@ =~= seq!['U', 'r', 'g', 'e', 'n', 'c', 'y', ':', ' ']
                    + hundredths_chars(u as int));
            }
            parts.push(seg);
        }
        proof {
            assert(string_views(parts@) =~= task_parts(*self, tz_offset_secs as int));
        }
        let ghost pv = string_views(parts@);
        let mut out = crate::numfmt::u64_to_dec_string(self.id as u64);
        push_char(&mut out, ' ');
        let ghost head = dec_digits(self.id as nat) + seq![' '];
        let mut k: usize = 0;
        while k < parts.len()
            invariant
                k <= parts@.len(),
                pv == string_views(parts@),
                head == dec_digits(self.id as nat) + seq![' '],
                k == 0 ==> out@ == head,
                k >= 1 ==> out@ == head + join_with(pv.take(k as int), seq![',', ' ']),
            decreases parts@.len() - k,
        {
            if k > 0 {
                proof {
                    reveal_strlit(", ");
                }
                out.append(", ");
            }
            out.append(parts[k].as_str());
            proof {
                assert(pv[k as int] == parts@[k as int]@);
                if k == 0 {
                    assert(pv.take(1).len() == 1);
                    assert(pv.take(1)[0] == pv[0]);
                    assert(out@ =~= head + join_with(pv.take(1), seq![',', ' ']));
                } else {
                    assert(pv.take(k as int).push(pv[k as int]) =~= pv.take(k + 1));
                    lemma_join_with_push(pv.take(k as int), pv[k as int], seq![',', ' ']);
                    assert((", ")@ =~= seq![',', ' ']);
                    assert(out@ =~= head + join_with(pv.take(k + 1), seq![',', ' ']));
                }
            }
            k = k + 1;
        }
        proof {
            assert(pv.take(pv.len() as int) =~= pv);
            if parts@.len() == 0 {
                assert(join_with(pv, seq![',', ' ']) =~= Seq::<char>::empty());
            }
            assert(out@ =~= task_line(*self, tz_offset_secs as int));
        }
        out
    }
}

// ---------------------------------------------------------------------------
// The two-field summary.
// ---------------------------------------------------------------------------
/// The fixed sentinel for an empty snapshot.
pub open spec fn no_tasks_chars() -> Seq<char> {
    seq!['N', 'o', ' ', 't', 'a', 's', 'k', 's', '.']
}

/// The headline: the line of the first task, or the sentinel.
pub open spec fn summary_text(tasks: Seq<Task>, off: int) -> Seq<char> {
    if tasks.len() == 0 {
        no_tasks_chars()
    } else {
        task_line(tasks[0], off)
    }
}

/// The full list: every line joined by newlines, or the sentinel.
pub open spec fn summary_tooltip(tasks: Seq<Task>, off: int) -> Seq<char> {
    if tasks.len() == 0 {
        no_tasks_chars()
    } else {
        join_with(task_lines(tasks, off), seq!['\n'])
    }
}

/// The two-field summary handed to the status bar.
#[derive(Debug)]
pub struct WaybarOutput {
    pub text: String,
    pub tooltip: String,
}

impl PartialEq for WaybarOutput {
    fn eq(&self, other: &Self) -> bool {
        self.text == other.text && self.tooltip == other.tooltip
    }
}

impl vstd::std_specs::cmp::PartialEqSpecImpl for WaybarOutput {
    open spec fn obeys_eq_spec() -> bool {
        true
    }

    open spec fn eq_spec(&self, other: &Self) -> bool {
        self.text@ == other.text@ && self.tooltip@ == other.tooltip@
    }
}

/// Build the summary of an ordered snapshot: headline and newline-joined
/// list, or the sentinel twice when there is nothing to show.
pub fn generate_waybar_output(tasks: &Vec<Task>, tz_offset_secs: i64) -> (r: WaybarOutput)
    requires
        -172800 <= tz_offset_secs <= 172800,
    ensures
        r.text@ == summary_text(tasks@, tz_offset_secs as int),
        r.tooltip@ == summary_tooltip(tasks@, tz_offset_secs as int),
{
    if tasks.len() == 0 {
        proof {
            reveal_strlit("No tasks.");
            assert(("No tasks.")@ =~= no_tasks_chars());
        }
        let text: String = "No tasks.".to_owned();
        let tooltip: String = "No tasks.".to_owned();
        return WaybarOutput { text, tooltip };
    }
    let first = &tasks[0];
    let text = first.construct_task_output(tz_offset_secs);
    let ghost lines = task_lines(tasks@, tz_offset_secs as int);
    let mut tooltip = String::new();
    let mut k: usize = 0;
    while k < tasks.len()
        invariant
            k <= tasks@.len(),
            -172800 <= tz_offset_secs <= 172800,
            lines == task_lines(tasks@, tz_offset_secs as int),
            k == 0 ==> tooltip@ == Seq::<char>::empty(),
            k >= 1 ==> tooltip@ == join_with(lines.take(k as int), seq!['\n']),
        decreases tasks@.len() - k,
    {
        if k > 0 {
            push_char(&mut tooltip, '\n');
        }
        let entry = &tasks[k];
        let line = entry.construct_task_output(tz_offset_secs);
        tooltip.append(line.as_str());
        proof {
            assert(lines[k as int] == task_line(tasks@[k as int], tz_offset_secs as int));
            if k == 0 {
                assert(lines.take(1).len() == 1);
                assert(lines.take(1)[0] == lines[0]);
                assert(tooltip@ =~= join_with(lines.take(1), seq!['\n']));
            } else {
                assert(lines.take(k as int).push(lines[k as int]) =~= lines.take(k + 1));
                lemma_join_with_push(lines.take(k as int), lines[k as int], seq!['\n']);
                assert(tooltip@ =~= join_with(lines.take(k + 1), seq!['\n']));
            }
        }
        k = k + 1;
    }
    proof {
        assert(lines.take(lines.len() as int) =~= lines);
    }
    WaybarOutput { text, tooltip }
}

// ---------------------------------------------------------------------------
// The persisted JSON line.
// ---------------------------------------------------------------------------
/// Hexadecimal digit characters, lower case.
pub open spec fn hex_digit_char(d: int) -> char {
    if d < 10 {
        crate::numfmt::digit_char(d)
    } else if d == 10 {
        'a'
    } else if d == 11 {
        'b'
    } else if d == 12 {
        'c'
    } else if d == 13 {
        'd'
    } else if d == 14 {
        'e'
    } else {
        'f'
    }
}

/// How one character appears inside a JSON string literal: quote and
/// backslash escaped, the five short control escapes, `\u00xx` for the
/// other control characters, and everything else verbatim.
pub open spec fn json_escape_char(c: char) -> Seq<char> {
    if c == '"' {
        seq!['\\', '"']
    } else if c == '\\' {
        seq!['\\', '\\']
    } else if c as int == 8 {
        seq!['\\', 'b']
    } else if c as int == 9 {
        seq!['\\', 't']
    } else if c as int == 10 {
        seq!['\\', 'n']
    } else if c as int == 12 {
        seq!['\\', 'f']
    } else if c as int == 13 {
        seq!['\\', 'r']
    } else if (c as int) < 32 {
        seq!['\\', 'u', '0', '0', hex_digit_char((c as int) / 16), hex_digit_char((c as int) % 16)]
    } else {
        seq![c]
    }
}

/// A whole string escaped for a JSON string literal.
pub open spec fn json_escaped(s: Seq<char>) -> Seq<char>
    decreases s.len(),
{
    if s.len() == 0 {
        Seq::empty()
    } else {
        json_escaped(s.drop_last()) + json_escape_char(s.last())
    }
}

fn append_hex_digit(out: &mut String, d: u32)
    requires
        d < 16,
    ensures
        final(out)@ == old(out)@ + seq![hex_digit_char(d as int)],
{
    proof {
        reveal_strlit("0");
        reveal_strlit("1");
        reveal_strlit("2");
        reveal_strlit("3");
        reveal_strlit("4");
        reveal_strlit("5");
        reveal_strlit("6");
        reveal_strlit("7");
        reveal_strlit("8");
        reveal_strlit("9");
        reveal_strlit("a");
        reveal_strlit("b");
        reveal_strlit("c");
        reveal_strlit("d");
        reveal_strlit("e");
        reveal_strlit("f");
    }
    let s: &str = match d {
        0 => "0",
        1 => "1",
        2 => "2",
        3 => "3",
        4 => "4",
        5 => "5",
        6 => "6",
        7 => "7",
        8 => "8",
        9 => "9",
        10 => "a",
        11 => "b",
        12 => "c",
        13 => "d",
        14 => "e",
        _ => "f",
    };
    proof {
        assert(s@ =~= seq![hex_digit_char(d as int)]);
    }
    out.append(s);
}

fn append_json_escaped(out: &mut String, v: &str)
    ensures
        final(out)@ == old(out)@ + json_escaped(v@),
{
    let n = v.unicode_len();
    let mut i: usize = 0;
    while i < n
        invariant
            i <= n,
            n == v@.len(),
            out@ == old(out)@ + json_escaped(v@.take(i as int)),
        decreases n - i,
    {
        let c = v.get_char(i);
        let code = c as u32;
        if c == '"' {
            proof {
                reveal_strlit("\\\"");
            }
            out.append("\\\"");
            proof {
                assert(("\\\"")@ =~= json_escape_char(c));
            }
        } else if c == '\\' {
            proof {
                reveal_strlit("\\\\");
            }
            out.append("\\\\");
            proof {
                assert(("\\\\")@ =~= json_escape_char(c));
            }
        } else if code == 8 {
            proof {
                reveal_strlit("\\b");
            }
            out.append("\\b");
            proof {
                assert(("\\b")@ =~= json_escape_char(c));
            }
        } else if code == 9 {
            proof {
                reveal_strlit("\\t");
            }
            out.append("\\t");
            proof {
                assert(("\\t")@ =~= json_escape_char(c));
            }
        } else if code == 10 {
            proof {
                reveal_strlit("\\n");
            }
            out.append("\\n");
            proof {
                assert(("\\n")@ =~= json_escape_char(c));
            }
        } else if code == 12 {
            proof {
                reveal_strlit("\\f");
            }
            out.append("\\f");
            proof {
                assert(("\\f")@ =~= json_escape_char(c));
            }
        } else if code == 13 {
            proof {
                reveal_strlit("\\r");
            }
            out.append("\\r");
            proof {
                assert(("\\r")@ =~= json_escape_char(c));
            }
        } else if code < 32 {
            proof {
                reveal_strlit("\\u00");
            }
            out.append("\\u00");
            append_hex_digit(out, code / 16);
            append_hex_digit(out, code % 16);
            proof {
                assert(("\\u00")@ + seq![hex_digit_char((code as int) / 16)] + seq![
                    hex_digit_char((code as int) % 16),
                ] =~= json_escape_char(c));
            }
        } else {
            push_char(out, c);
            proof {
                assert(seq![c] =~= json_escape_char(c));
            }
        }
        proof {
            assert(v@.take(i + 1).drop_last() =~= v@.take(i as int));
            assert(v@.take(i + 1).last() == v@[i as int]);
            assert(out@ =~= old(out)@ + json_escaped(v@.take(i + 1)));
        }
        i = i + 1;
    }
    proof {
        assert(v@.take(v@.len() as int) =~= v@);
    }
}

/// The persisted summary line: one JSON object with exactly the two
/// string fields, terminated by one newline.
pub open spec fn json_line_chars(text: Seq<char>, tooltip: Seq<char>) -> Seq<char> {
    seq!['{', '"', 't', 'e', 'x', 't', '"', ':', '"'] + json_escaped(text) + seq![
        '"',
        ',',
        '"',
        't',
        'o',
        'o',
        'l',
        't',
        'i',
        'p',
        '"',
        ':',
        '"',
    ] + json_escaped(tooltip) + seq!['"', '}', '\n']
}

/// Encode the summary as the single line its consumer reads back.
pub fn waybar_json_line(output: &WaybarOutput) -> (r: String)
    ensures
        r@ == json_line_chars(output.text@, output.tooltip@),
{
    proof {
        reveal_strlit("{\"text\":\"");
        reveal_strlit("\",\"tooltip\":\"");
        reveal_strlit("\"}\n");
    }
    let mut out = String::new();
    out.append("{\"text\":\"");
    append_json_escaped(&mut out, output.text.as_str());
    out.append("\",\"tooltip\":\"");
    append_json_escaped(&mut out, output.tooltip.as_str());
    out.append("\"}\n");
    proof {
        assert(out@ =~= json_line_chars(output.text@, output.tooltip@));
    }
    out
}

// ---------------------------------------------------------------------------
// Laws of the whole text pipeline.
// ---------------------------------------------------------------------------
/// The whole text pipeline as one function of the snapshot and the
/// display offset: order the tasks, render the summary, encode the line.
pub open spec fn pipeline_chars(tasks: Seq<Task>, off: int) -> Seq<char> {
    json_line_chars(summary_text(sort_seq(tasks), off), summary_tooltip(sort_seq(tasks), off))
}

/// LAW: an empty snapshot renders the sentinel in both fields, and its
/// persisted line is exactly `{"text":"No tasks.","tooltip":"No tasks."}`
/// with its closing newline.
pub proof fn lemma_empty_snapshot_output(off: int)
    ensures
        summary_text(Seq::<Task>::empty(), off) == no_tasks_chars(),
        summary_tooltip(Seq::<Task>::empty(), off) == no_tasks_chars(),
        json_line_chars(no_tasks_chars(), no_tasks_chars())
            == "{\"text\":\"No tasks.\",\"tooltip\":\"No tasks.\"}\n"@,
{
    reveal_strlit("{\"text\":\"No tasks.\",\"tooltip\":\"No tasks.\"}\n");
    assert(json_escaped(no_tasks_chars()) =~= no_tasks_chars()) by {
        reveal_with_fuel(json_escaped, 11);
        assert(no_tasks_chars().take(0) =~= Seq::<char>::empty());
    }
    assert(json_line_chars(no_tasks_chars(), no_tasks_chars())
        =~= "{\"text\":\"No tasks.\",\"tooltip\":\"No tasks.\"}\n"@);
}

/// LAW: the pipeline is a pure function of the export snapshot: two runs
/// over equal snapshots at one display offset produce byte-identical
/// summary output.
pub proof fn lemma_pipeline_deterministic(t1: Seq<Task>, t2: Seq<Task>, off: int)
    requires
        t1 == t2,
    ensures
        pipeline_chars(t1, off) == pipeline_chars(t2, off),
{
}

} // verus!
