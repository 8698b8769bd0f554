use vstd::prelude::*;

use crate::owl::protocol::{DecorationType, RustOwlDecoration};
use crate::text::{decimal, owned, push_decimal, push_text, split_lines, string_of, text_lines};

verus! {

/// The lifetime, borrow, move and conflict report for one variable.
#[derive(Debug, Clone)]
pub struct VariableLifetimeReport {
    pub file: String,
    pub target: CursorTarget,
    pub live_span: Option<LiveSpan>,
    pub active_borrows: Vec<BorrowSpan>,
    pub moves: Vec<MoveEvent>,
    pub conflicts: Vec<ConflictIssue>,
    pub summary: String,
    pub actionable_fixes: Vec<String>,
}

/// The inspected position (one-based line and column).
#[derive(Debug, Clone)]
pub struct CursorTarget {
    pub line: u32,
    pub col: u32,
}

/// The lines over which the variable is live, and how certain that is.
#[derive(Debug, Clone)]
pub struct LiveSpan {
    pub start_line: u32,
    pub end_line: u32,
    pub certainty: String,
}

/// A borrow of the variable: `"immutable"` or `"mutable"`, over one-based lines.
#[derive(Debug)]
pub struct BorrowSpan {
    pub kind: String,
    pub lines: (u32, u32),
    pub description: Option<String>,
}

/// A move of the variable (`"move"`) or its consumption by a call (`"call_consumption"`).
#[derive(Debug, Clone)]
pub struct MoveEvent {
    pub line: u32,
    pub kind: String,
}

/// A borrow-checker conflict with a recommendation on how to resolve it.
#[derive(Debug)]
pub struct ConflictIssue {
    pub kind: String,
    pub lines: (u32, u32),
    pub description: String,
    pub recommendation: String,
}

pub struct LiveSpanView {
    pub start_line: u32,
    pub end_line: u32,
    pub certainty: Seq<char>,
}

pub struct BorrowSpanView {
    pub kind: Seq<char>,
    pub lines: (u32, u32),
    pub description: Option<Seq<char>>,
}

pub struct MoveEventView {
    pub line: u32,
    pub kind: Seq<char>,
}

pub struct ConflictIssueView {
    pub kind: Seq<char>,
    pub lines: (u32, u32),
    pub description: Seq<char>,
    pub recommendation: Seq<char>,
}

pub struct ReportView {
    pub file: Seq<char>,
    pub target_line: u32,
    pub target_col: u32,
    pub live_span: Option<LiveSpanView>,
    pub active_borrows: Seq<BorrowSpanView>,
    pub moves: Seq<MoveEventView>,
    pub conflicts: Seq<ConflictIssueView>,
    pub summary: Seq<char>,
    pub actionable_fixes: Seq<Seq<char>>,
}

impl View for LiveSpan {
    type V = LiveSpanView;

    open spec fn view(&self) -> LiveSpanView {
        LiveSpanView { start_line: self.start_line, end_line: self.end_line, certainty: self.certainty@ }
    }
}

/// The view of an optional string.
pub open spec fn opt_text(o: Option<String>) -> Option<Seq<char>> {
    match o {
        Some(s) => Some(s@),
        None => None,
    }
}

impl View for BorrowSpan {
    type V = BorrowSpanView;

    open spec fn view(&self) -> BorrowSpanView {
        BorrowSpanView { kind: self.kind@, lines: self.lines, description: opt_text(self.description) }
    }
}

impl View for MoveEvent {
    type V = MoveEventView;

    open spec fn view(&self) -> MoveEventView {
        MoveEventView { line: self.line, kind: self.kind@ }
    }
}

impl View for ConflictIssue {
    type V = ConflictIssueView;

    open spec fn view(&self) -> ConflictIssueView {
        ConflictIssueView {
            kind: self.kind@,
            lines: self.lines,
            description: self.description@,
            recommendation: self.recommendation@,
        }
    }
}

impl View for VariableLifetimeReport {
    type V = ReportView;

    open spec fn view(&self) -> ReportView {
        ReportView {
            file: self.file@,
            target_line: self.target.line,
            target_col: self.target.col,
            live_span: match self.live_span {
                Some(l) => Some(l@),
                None => None,
            },
            active_borrows: self.active_borrows@.map_values(|b: BorrowSpan| b@),
            moves: self.moves@.map_values(|m: MoveEvent| m@),
            conflicts: self.conflicts@.map_values(|c: ConflictIssue| c@),
            summary: self.summary@,
            actionable_fixes: self.actionable_fixes@.map_values(|f: String| f@),
        }
    }
}

impl Clone for BorrowSpan {
    fn clone(&self) -> (r: Self)
        ensures
            r@ == self@,
    {
        BorrowSpan {
            kind: self.kind.clone(),
            lines: (self.lines.0, self.lines.1),
            description: clone_opt_text(&self.description),
        }
    }
}

impl Clone for ConflictIssue {
    fn clone(&self) -> (r: Self)
        ensures
            r@ == self@,
    {
        ConflictIssue {
            kind: self.kind.clone(),
            lines: (self.lines.0, self.lines.1),
            description: self.description.clone(),
            recommendation: self.recommendation.clone(),
        }
    }
}

/// The one-based form of a zero-based line number, computed as `u32` arithmetic wraps:
/// the largest line number wraps to 0.
pub open spec fn one_based(line: u32) -> u32 {
    if line < u32::MAX {
        (line + 1) as u32
    } else {
        0
    }
}

fn one_based_exec(line: u32) -> (r: u32)
    ensures
        r == one_based(line),
{
    if line < u32::MAX {
        line + 1
    } else {
        0
    }
}

/// The one-based (start, end) lines of a decoration.
pub open spec fn lines_of(d: RustOwlDecoration) -> (u32, u32) {
    (one_based(d.range.start.line), one_based(d.range.end.line))
}

/// The live span that the decorations determine: the last liveness decoration wins.
pub open spec fn live_span_of(ds: Seq<RustOwlDecoration>) -> Option<LiveSpanView>
    decreases ds.len(),
{
    if ds.len() == 0 {
        None
    } else {
        let d = ds.last();
        let (s, e) = lines_of(d);
        match d.kind {
            DecorationType::DefinitelyLive | DecorationType::Lifetime => Some(
                LiveSpanView { start_line: s, end_line: e, certainty: "definitely_live"@ },
            ),
            DecorationType::MaybeInitialized => Some(
                LiveSpanView { start_line: s, end_line: e, certainty: "maybe_initialized"@ },
            ),
            _ => live_span_of(ds.drop_last()),
        }
    }
}

/// The borrow that one decoration contributes, if it is a borrow.
pub open spec fn borrow_item(d: RustOwlDecoration) -> Seq<BorrowSpanView> {
    match d.kind {
        DecorationType::ImmBorrow => seq![
            BorrowSpanView { kind: "immutable"@, lines: lines_of(d), description: opt_text(d.hover_text) },
        ],
        DecorationType::MutBorrow => seq![
            BorrowSpanView { kind: "mutable"@, lines: lines_of(d), description: opt_text(d.hover_text) },
        ],
        _ => seq![],
    }
}

/// The borrows of the decorations, in order.
pub open spec fn borrows_of(ds: Seq<RustOwlDecoration>) -> Seq<BorrowSpanView>
    decreases ds.len(),
{
    if ds.len() == 0 {
        seq![]
    } else {
        borrows_of(ds.drop_last()) + borrow_item(ds.last())
    }
}

/// The move that one decoration contributes, if it is a move or a consuming call.
pub open spec fn move_item(d: RustOwlDecoration) -> Seq<MoveEventView> {
    match d.kind {
        DecorationType::Move => seq![MoveEventView { line: lines_of(d).0, kind: "move"@ }],
        DecorationType::Call => seq![MoveEventView { line: lines_of(d).0, kind: "call_consumption"@ }],
        _ => seq![],
    }
}

/// The moves of the decorations, in order.
pub open spec fn moves_of(ds: Seq<RustOwlDecoration>) -> Seq<MoveEventView>
    decreases ds.len(),
{
    if ds.len() == 0 {
        seq![]
    } else {
        moves_of(ds.drop_last()) + move_item(ds.last())
    }
}

/// The advice for a reference that outlives its value, on one-based lines `s`-`e`.
pub open spec fn outlive_advice(s: u32, e: u32) -> Seq<char> {
    "Lifetime conflict on lines "@ + decimal(s as nat) + "-"@ + decimal(e as nat)
        + ": reference outlives the value. Scope references or consider taking ownership."@
}

/// The advice for a mutable borrow that overlaps another borrow, on one-based lines `s`-`e`.
pub open spec fn aliasing_advice(s: u32, e: u32) -> Seq<char> {
    "Aliasing violation on lines "@ + decimal(s as nat) + "-"@ + decimal(e as nat)
        + ": mutable borrow overlaps with another borrow. Narrow borrow scope with `{ ... }`."@
}

/// The conflict that one decoration contributes, if it reports one.
pub open spec fn conflict_item(d: RustOwlDecoration) -> Seq<ConflictIssueView> {
    let (s, e) = lines_of(d);
    match d.kind {
        DecorationType::Outlive => seq![
            ConflictIssueView {
                kind: "outlive_conflict"@,
                lines: (s, e),
                description: "Reference outlives borrowed data"@,
                recommendation: outlive_advice(s, e),
            },
        ],
        DecorationType::SharedMut => seq![
            ConflictIssueView {
                kind: "aliasing_conflict"@,
                lines: (s, e),
                description: "Cannot borrow as mutable while also borrowed"@,
                recommendation: aliasing_advice(s, e),
            },
        ],
        _ => seq![],
    }
}

/// The conflicts of the decorations, in order.
pub open spec fn conflicts_of(ds: Seq<RustOwlDecoration>) -> Seq<ConflictIssueView>
    decreases ds.len(),
{
    if ds.len() == 0 {
        seq![]
    } else {
        conflicts_of(ds.drop_last()) + conflict_item(ds.last())
    }
}

/// The recommendations of the conflicts, in order.
pub open spec fn fixes_of(cs: Seq<ConflictIssueView>) -> Seq<Seq<char>> {
    cs.map_values(|c: ConflictIssueView| c.recommendation)
}

/// The one-sentence summary for a report with the given numbers of borrows and conflicts.
pub open spec fn summary_of(borrows: nat, conflicts: nat) -> Seq<char> {
    if conflicts == 0 {
        if borrows == 0 {
            "No active borrows or conflicts detected for this variable."@
        } else {
            "Clean lifetime with "@ + decimal(borrows)
                + " active borrow(s). No borrow-checker conflicts."@
        }
    } else {
        "ALERT: "@ + decimal(conflicts)
            + " borrow-checker conflict(s) detected! Immediate resolution recommended."@
    }
}

/// The report that the decorations `ds` give for `file` at (`line`, `col`).
pub open spec fn normalized(file: Seq<char>, line: u32, col: u32, ds: Seq<RustOwlDecoration>) -> ReportView {
    ReportView {
        file,
        target_line: line,
        target_col: col,
        live_span: live_span_of(ds),
        active_borrows: borrows_of(ds),
        moves: moves_of(ds),
        conflicts: conflicts_of(ds),
        summary: summary_of(borrows_of(ds).len(), conflicts_of(ds).len()),
        actionable_fixes: fixes_of(conflicts_of(ds)),
    }
}

fn clone_opt_text(o: &Option<String>) -> (r: Option<String>)
    ensures
        opt_text(r) == opt_text(*o),
{
    match o {
        Some(s) => Some(s.clone()),
        None => None,
    }
}

/// `prefix`, then "`s`-`e`", then `suffix`.
fn line_range_text(prefix: &str, s: u32, e: u32, suffix: &str) -> (r: String)
    ensures
        r@ == prefix@ + decimal(s as nat) + "-"@ + decimal(e as nat) + suffix@,
{
    let mut r = owned(prefix);
    push_decimal(&mut r, s as u64);
    push_text(&mut r, "-");
    push_decimal(&mut r, e as u64);
    push_text(&mut r, suffix);
    r
}

fn summary_text(borrows: usize, conflicts: usize) -> (r: String)
    ensures
        r@ == summary_of(borrows as nat, conflicts as nat),
{
    if conflicts == 0 {
        if borrows == 0 {
            owned("No active borrows or conflicts detected for this variable.")
        } else {
            let mut r = owned("Clean lifetime with ");
            push_decimal(&mut r, borrows as u64);
            push_text(&mut r, " active borrow(s). No borrow-checker conflicts.");
            r
        }
    } else {
        let mut r = owned("ALERT: ");
        push_decimal(&mut r, conflicts as u64);
        push_text(&mut r, " borrow-checker conflict(s) detected! Immediate resolution recommended.");
        r
    }
}

/// Turns the raw RustOwl decorations for the variable at (`target_line`, `target_col`) of
/// `file` into a report: zero-based lines become one-based, the last liveness decoration
/// gives the live span, borrows, moves and conflicts are listed in the order of the
/// decorations, each conflict comes with its recommendation, and the summary counts them.
pub fn normalize_decorations(
    file: &str,
    target_line: u32,
    target_col: u32,
    decorations: &[RustOwlDecoration],
) -> (report: VariableLifetimeReport)
    ensures
        report@ == normalized(file@, target_line, target_col, decorations@),
{
    let ghost ds = decorations@;
    let mut live_span: Option<LiveSpan> = None;
    let mut active_borrows: Vec<BorrowSpan> = Vec::new();
    let mut moves: Vec<MoveEvent> = Vec::new();
    let mut conflicts: Vec<ConflictIssue> = Vec::new();
    let mut actionable_fixes: Vec<String> = Vec::new();

    let mut i: usize = 0;
    while i < decorations.len()
        invariant
            i <= ds.len(),
            ds == decorations@,
            match live_span {
                Some(l) => Some(l@),
                None => None,
            } == live_span_of(ds.take(i as int)),
            active_borrows@.map_values(|b: BorrowSpan| b@) == borrows_of(ds.take(i as int)),
            moves@.map_values(|m: MoveEvent| m@) == moves_of(ds.take(i as int)),
            conflicts@.map_values(|c: ConflictIssue| c@) == conflicts_of(ds.take(i as int)),
            actionable_fixes@.map_values(|f: String| f@) == fixes_of(conflicts_of(ds.take(i as int))),
        decreases ds.len() - i,
    {
        let d = &decorations[i];
        assert(ds.take(i + 1).drop_last() =~= ds.take(i as int));
        assert(ds.take(i + 1).last() == ds[i as int]);
        let start_l = one_based_exec(d.range.start.line);
        let end_l = one_based_exec(d.range.end.line);
        let ghost pre_borrows = active_borrows@;
        let ghost pre_moves = moves@;
        let ghost pre_conflicts = conflicts@;
        let ghost pre_fixes = actionable_fixes@;

        match d.kind {
            DecorationType::DefinitelyLive | DecorationType::Lifetime => {
                live_span = Some(
                    LiveSpan { start_line: start_l, end_line: end_l, certainty: owned("definitely_live") },
                );
            },
            DecorationType::MaybeInitialized => {
                live_span = Some(
                    LiveSpan { start_line: start_l, end_line: end_l, certainty: owned("maybe_initialized") },
                );
            },
            DecorationType::ImmBorrow => {
                active_borrows.push(
                    BorrowSpan {
                        kind: owned("immutable"),
                        lines: (start_l, end_l),
                        description: clone_opt_text(&d.hover_text),
                    },
                );
            },
            DecorationType::MutBorrow => {
                active_borrows.push(
                    BorrowSpan {
                        kind: owned("mutable"),
                        lines: (start_l, end_l),
                        description: clone_opt_text(&d.hover_text),
                    },
                );
            },
            DecorationType::Move => {
                moves.push(MoveEvent { line: start_l, kind: owned("move") });
            },
            DecorationType::Call => {
                moves.push(MoveEvent { line: start_l, kind: owned("call_consumption") });
            },
            DecorationType::Outlive => {
                let rec = line_range_text(
                    "Lifetime conflict on lines ",
                    start_l,
                    end_l,
                    ": reference outlives the value. Scope references or consider taking ownership.",
                );
                actionable_fixes.push(rec.clone());
                conflicts.push(
                    ConflictIssue {
                        kind: owned("outlive_conflict"),
                        lines: (start_l, end_l),
                        description: owned("Reference outlives borrowed data"),
                        recommendation: rec,
                    },
                );
            },
            DecorationType::SharedMut => {
                let rec = line_range_text(
                    "Aliasing violation on lines ",
                    start_l,
                    end_l,
                    ": mutable borrow overlaps with another borrow. Narrow borrow scope with `{ ... }`.",
                );
                actionable_fixes.push(rec.clone());
                conflicts.push(
                    ConflictIssue {
                        kind: owned("aliasing_conflict"),
                        lines: (start_l, end_l),
                        description: owned("Cannot borrow as mutable while also borrowed"),
                        recommendation: rec,
                    },
                );
            },
            DecorationType::Unknown => {},
        }
        assert(active_borrows@.map_values(|b: BorrowSpan| b@) =~= pre_borrows.map_values(
            |b: BorrowSpan| b@,
        ) + borrow_item(ds[i as int]));
        assert(moves@.map_values(|m: MoveEvent| m@) =~= pre_moves.map_values(|m: MoveEvent| m@)
            + move_item(ds[i as int]));
        assert(conflicts@.map_values(|c: ConflictIssue| c@) =~= pre_conflicts.map_values(
            |c: ConflictIssue| c@,
        ) + conflict_item(ds[i as int]));
        assert(actionable_fixes@.map_values(|f: String| f@) =~= pre_fixes.map_values(
            |f: String| f@,
        ) + fixes_of(conflict_item(ds[i as int])));
        assert(fixes_of(conflicts_of(ds.take(i + 1))) =~= fixes_of(conflicts_of(ds.take(i as int)))
            + fixes_of(conflict_item(ds[i as int])));
        i = i + 1;
    }
    assert(ds.take(i as int) =~= ds);

    let summary = summary_text(active_borrows.len(), conflicts.len());

    VariableLifetimeReport {
        file: owned(file),
        target: CursorTarget { line: target_line, col: target_col },
        live_span,
        active_borrows,
        moves,
        conflicts,
        summary,
        actionable_fixes,
    }
}

/// Each conflict of a report comes with exactly one actionable fix, in the same order: the
/// fix is the conflict's recommendation.
pub proof fn lemma_one_fix_per_conflict(file: Seq<char>, line: u32, col: u32, ds: Seq<RustOwlDecoration>)
    ensures
        normalized(file, line, col, ds).actionable_fixes.len() == normalized(file, line, col, ds).conflicts.len(),
        forall|k: int|
            0 <= k < normalized(file, line, col, ds).conflicts.len() ==> #[trigger] normalized(
                file,
                line,
                col,
                ds,
            ).actionable_fixes[k] == normalized(file, line, col, ds).conflicts[k].recommendation,
{
}

/// The summary of a report raises an alert (it begins with "ALERT: ") exactly when the
/// decorations report at least one borrow-checker conflict.
pub proof fn lemma_alert_iff_conflicts(file: Seq<char>, line: u32, col: u32, ds: Seq<RustOwlDecoration>)
    ensures
        normalized(file, line, col, ds).summary.take(7) == "ALERT: "@ <==> normalized(
            file,
            line,
            col,
            ds,
        ).conflicts.len() > 0,
{
    reveal_strlit("ALERT: ");
    reveal_strlit("No active borrows or conflicts detected for this variable.");
    reveal_strlit("Clean lifetime with ");
    let r = normalized(file, line, col, ds);
    if r.conflicts.len() > 0 {
        assert(r.summary.take(7) =~= "ALERT: "@);
    } else {
        assert(r.summary[0] != 'A');
        assert(r.summary.take(7)[0] != "ALERT: "@[0]);
    }
}

/// Normalizing two runs of decorations one after the other lists the borrows, moves and
/// conflicts of the first run, then those of the second; the live span is the second run's,
/// or the first run's where the second has none.
pub proof fn lemma_normalize_concat(ds1: Seq<RustOwlDecoration>, ds2: Seq<RustOwlDecoration>)
    ensures
        borrows_of(ds1 + ds2) == borrows_of(ds1) + borrows_of(ds2),
        moves_of(ds1 + ds2) == moves_of(ds1) + moves_of(ds2),
        conflicts_of(ds1 + ds2) == conflicts_of(ds1) + conflicts_of(ds2),
        live_span_of(ds1 + ds2) == match live_span_of(ds2) {
            Some(l) => Some(l),
            None => live_span_of(ds1),
        },
    decreases ds2.len(),
{
    if ds2.len() == 0 {
        assert(ds1 + ds2 =~= ds1);
        assert(borrows_of(ds1) + borrows_of(ds2) =~= borrows_of(ds1));
        assert(moves_of(ds1) + moves_of(ds2) =~= moves_of(ds1));
        assert(conflicts_of(ds1) + conflicts_of(ds2) =~= conflicts_of(ds1));
    } else {
        lemma_normalize_concat(ds1, ds2.drop_last());
        assert((ds1 + ds2).drop_last() =~= ds1 + ds2.drop_last());
        assert((ds1 + ds2).last() == ds2.last());
        assert(borrows_of(ds1 + ds2) =~= borrows_of(ds1) + borrows_of(ds2));
        assert(moves_of(ds1 + ds2) =~= moves_of(ds1) + moves_of(ds2));
        assert(conflicts_of(ds1 + ds2) =~= conflicts_of(ds1) + conflicts_of(ds2));
    }
}

/// The line of `content` that the one-based `line` names (line 0 names the first line too),
/// if the text has that many lines.
pub open spec fn selected_line(content: Seq<char>, line: u32) -> Option<Seq<char>> {
    let idx: int = if line > 0 { line - 1 } else { 0 };
    if idx < text_lines(content).len() {
        Some(text_lines(content)[idx])
    } else {
        None
    }
}

/// The text of the one-based `line` of `content` (see `selected_line`).
pub fn select_line(content: &str, line: u32) -> (r: Option<String>)
    ensures
        match r {
            Some(s) => selected_line(content@, line) == Some(s@),
            None => selected_line(content@, line) is None,
        },
{
    let lines = split_lines(content);
    let ghost ls = text_lines(content@);
    assert(lines@.len() == ls.len());
    let idx: usize = if line > 0 { (line - 1) as usize } else { 0 };
    if idx < lines.len() {
        assert(lines@[idx as int]@ == ls[idx as int]);
        Some(string_of(&lines[idx]))
    } else {
        None
    }
}

} // verus!

verus! {

/// The decorations of `ds` whose kind is not `Unknown`, in order.
pub open spec fn known_decorations(ds: Seq<RustOwlDecoration>) -> Seq<RustOwlDecoration>
    decreases ds.len(),
{
    if ds.len() == 0 {
        seq![]
    } else if ds.last().kind == DecorationType::Unknown {
        known_decorations(ds.drop_last())
    } else {
        known_decorations(ds.drop_last()).push(ds.last())
    }
}

/// Two decorations that a report cannot tell apart: same kind and same start and end lines,
/// and, for borrows, the same hover text. Characters, `overlapped`, and the hover text of
/// other kinds do not matter.
pub open spec fn same_effect(a: RustOwlDecoration, b: RustOwlDecoration) -> bool {
    &&& a.kind == b.kind
    &&& a.range.start.line == b.range.start.line
    &&& a.range.end.line == b.range.end.line
    &&& (a.kind == DecorationType::ImmBorrow || a.kind == DecorationType::MutBorrow) ==> opt_text(
        a.hover_text,
    ) == opt_text(b.hover_text)
}

proof fn lemma_unknown_ignored(ds: Seq<RustOwlDecoration>)
    ensures
        live_span_of(ds) == live_span_of(known_decorations(ds)),
        borrows_of(ds) == borrows_of(known_decorations(ds)),
        moves_of(ds) == moves_of(known_decorations(ds)),
        conflicts_of(ds) == conflicts_of(known_decorations(ds)),
    decreases ds.len(),
{
    if ds.len() > 0 {
        let dl = ds.drop_last();
        lemma_unknown_ignored(dl);
        let k = known_decorations(ds);
        if ds.last().kind == DecorationType::Unknown {
            assert(borrows_of(ds) =~= borrows_of(dl));
            assert(moves_of(ds) =~= moves_of(dl));
            assert(conflicts_of(ds) =~= conflicts_of(dl));
        } else {
            assert(k.drop_last() =~= known_decorations(dl));
            assert(k.last() == ds.last());
        }
    }
}

proof fn lemma_same_effect_runs(ds1: Seq<RustOwlDecoration>, ds2: Seq<RustOwlDecoration>)
    requires
        ds1.len() == ds2.len(),
        forall|i: int| 0 <= i < ds1.len() ==> same_effect(#[trigger] ds1[i], ds2[i]),
    ensures
        live_span_of(ds1) == live_span_of(ds2),
        borrows_of(ds1) == borrows_of(ds2),
        moves_of(ds1) == moves_of(ds2),
        conflicts_of(ds1) == conflicts_of(ds2),
    decreases ds1.len(),
{
    if ds1.len() > 0 {
        let n = ds1.len() - 1;
        assert(same_effect(ds1[n], ds2[n]));
        lemma_same_effect_runs(ds1.drop_last(), ds2.drop_last());
        assert(borrow_item(ds1.last()) == borrow_item(ds2.last()));
        assert(move_item(ds1.last()) == move_item(ds2.last()));
        assert(conflict_item(ds1.last()) == conflict_item(ds2.last()));
    }
}

/// A report depends on nothing but the decorations that are not `Unknown`, and of those only
/// on their kinds, their start and end lines, and the hover text of borrows: adding or
/// removing `Unknown` decorations, or changing characters, `overlapped`, or the hover text of
/// other decorations leaves the report as it is.
pub proof fn lemma_report_ignores_irrelevant(
    file: Seq<char>,
    line: u32,
    col: u32,
    ds1: Seq<RustOwlDecoration>,
    ds2: Seq<RustOwlDecoration>,
)
    requires
        known_decorations(ds1).len() == known_decorations(ds2).len(),
        forall|i: int|
            0 <= i < known_decorations(ds1).len() ==> same_effect(
                #[trigger] known_decorations(ds1)[i],
                known_decorations(ds2)[i],
            ),
    ensures
        normalized(file, line, col, ds1) == normalized(file, line, col, ds2),
{
    lemma_unknown_ignored(ds1);
    lemma_unknown_ignored(ds2);
    lemma_same_effect_runs(known_decorations(ds1), known_decorations(ds2));
}

/// The summary of a report counts what the report lists: with at least one conflict it is
/// an alert that gives the number of conflicts (the borrows do not count there); with no
/// conflict but some borrows it gives the number of borrows; with neither it says so.
pub proof fn lemma_summary_counts(file: Seq<char>, line: u32, col: u32, ds: Seq<RustOwlDecoration>)
    ensures
        ({
            let r = normalized(file, line, col, ds);
            &&& r.conflicts.len() > 0 ==> r.summary == "ALERT: "@ + decimal(r.conflicts.len())
                + " borrow-checker conflict(s) detected! Immediate resolution recommended."@
            &&& r.conflicts.len() == 0 && r.active_borrows.len() > 0 ==> r.summary
                == "Clean lifetime with "@ + decimal(r.active_borrows.len())
                + " active borrow(s). No borrow-checker conflicts."@
            &&& r.conflicts.len() == 0 && r.active_borrows.len() == 0 ==> r.summary
                == "No active borrows or conflicts detected for this variable."@
        }),
{
}

/// Two runs of decorations that report the same positive number of conflicts get the same
/// summary, however many borrows each has.
pub proof fn lemma_alert_ignores_borrows(
    file: Seq<char>,
    line: u32,
    col: u32,
    ds1: Seq<RustOwlDecoration>,
    ds2: Seq<RustOwlDecoration>,
)
    requires
        normalized(file, line, col, ds1).conflicts.len() > 0,
        normalized(file, line, col, ds1).conflicts.len() == normalized(file, line, col, ds2).conflicts.len(),
    ensures
        normalized(file, line, col, ds1).summary == normalized(file, line, col, ds2).summary,
{
    lemma_summary_counts(file, line, col, ds1);
    lemma_summary_counts(file, line, col, ds2);
}

/// The decorations that report a borrow-checker conflict (`SharedMut` or `Outlive`), in order.
pub open spec fn conflict_decorations(ds: Seq<RustOwlDecoration>) -> Seq<RustOwlDecoration>
    decreases ds.len(),
{
    if ds.len() == 0 {
        seq![]
    } else if ds.last().kind == DecorationType::SharedMut || ds.last().kind == DecorationType::Outlive {
        conflict_decorations(ds.drop_last()).push(ds.last())
    } else {
        conflict_decorations(ds.drop_last())
    }
}

/// Each conflict of a report comes from one `SharedMut` or `Outlive` decoration, in the
/// order of the decorations: an aliasing conflict from `SharedMut`, an outlive conflict
/// from `Outlive`, on the decoration's start and end lines plus one (as `u32` arithmetic
/// wraps), and its recommendation names those same lines.
pub proof fn lemma_conflict_lines(file: Seq<char>, line: u32, col: u32, ds: Seq<RustOwlDecoration>)
    ensures
        normalized(file, line, col, ds).conflicts.len() == conflict_decorations(ds).len(),
        forall|i: int|
            0 <= i < conflict_decorations(ds).len() ==> {
                let c = #[trigger] normalized(file, line, col, ds).conflicts[i];
                let d = conflict_decorations(ds)[i];
                &&& c.lines.0 as int == (d.range.start.line + 1) % 0x1_0000_0000
                &&& c.lines.1 as int == (d.range.end.line + 1) % 0x1_0000_0000
                &&& d.kind == DecorationType::SharedMut ==> c.kind == "aliasing_conflict"@
                    && c.recommendation == "Aliasing violation on lines "@ + decimal(c.lines.0 as nat) + "-"@
                    + decimal(c.lines.1 as nat)
                    + ": mutable borrow overlaps with another borrow. Narrow borrow scope with `{ ... }`."@
                &&& d.kind == DecorationType::Outlive ==> c.kind == "outlive_conflict"@
                    && c.recommendation == "Lifetime conflict on lines "@ + decimal(c.lines.0 as nat) + "-"@
                    + decimal(c.lines.1 as nat)
                    + ": reference outlives the value. Scope references or consider taking ownership."@
            },
    decreases ds.len(),
{
    if ds.len() > 0 {
        let dl = ds.drop_last();
        lemma_conflict_lines(file, line, col, dl);
        let cs = conflicts_of(ds);
        let cp = conflicts_of(dl);
        let cd = conflict_decorations(ds);
        let cdp = conflict_decorations(dl);
        let d = ds.last();
        assert forall|i: int| 0 <= i < cd.len() implies {
            let c = #[trigger] normalized(file, line, col, ds).conflicts[i];
            let e = conflict_decorations(ds)[i];
            &&& c.lines.0 as int == (e.range.start.line + 1) % 0x1_0000_0000
            &&& c.lines.1 as int == (e.range.end.line + 1) % 0x1_0000_0000
            &&& e.kind == DecorationType::SharedMut ==> c.kind == "aliasing_conflict"@
                && c.recommendation == "Aliasing violation on lines "@ + decimal(c.lines.0 as nat) + "-"@
                + decimal(c.lines.1 as nat)
                + ": mutable borrow overlaps with another borrow. Narrow borrow scope with `{ ... }`."@
            &&& e.kind == DecorationType::Outlive ==> c.kind == "outlive_conflict"@
                && c.recommendation == "Lifetime conflict on lines "@ + decimal(c.lines.0 as nat) + "-"@
                + decimal(c.lines.1 as nat)
                + ": reference outlives the value. Scope references or consider taking ownership."@
        } by {
            assert(normalized(file, line, col, ds).conflicts == cs);
            if i < cdp.len() {
                assert(cd[i] == cdp[i]);
                assert(cs[i] == cp[i]);
                assert(normalized(file, line, col, dl).conflicts[i] == cp[i]);
            } else {
                assert(cd[i] == d);
                assert(cs[i] == conflict_item(d)[0]);
            }
        }
    }
}

} // verus!
