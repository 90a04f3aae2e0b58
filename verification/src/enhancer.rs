//! Rendering enhancements as Markdown, standalone or merged into a base
//! guide, and the decisions around the model call.
use vstd::prelude::*;
use crate::prompt::{
    build_enhancement_prompt, detect_guide_type, enhancement_prompt_text,
    guide_type_of, json_top_level, tool_name_from_fields, tool_name_of, top_level_fields,
    EnhancementRequest, EnhancementResponse, ErrorSolution, GuideType, Gotcha,
    IrError, Workflow,
};
use crate::security::{
    escape_markdown, escaped, safe_description, safe_description_text, sanitize_llm_response,
    sanitized, MAX_DESCRIPTION_LENGTH, MAX_LLM_RESPONSE_SIZE,
};
use crate::text::{
    byte_len, byte_len_exceeds, chars_of, contains, contains_exec, lines_of, push_char, push_chars,
    push_str, split_lines, starts_with, starts_with_exec,
};

verus! {

// ---------------------------------------------------------------------------
// Section texts
// ---------------------------------------------------------------------------

/// Bytes allowed for a description in a heading or table cell.
pub open spec fn desc(s: Seq<char>) -> Seq<char> {
    safe_description_text(s, MAX_DESCRIPTION_LENGTH as nat)
}

/// The lines of a workflow's code block: each step sanitised.
pub open spec fn steps_text(steps: Seq<String>) -> Seq<char>
    decreases steps.len(),
{
    if steps.len() == 0 {
        Seq::empty()
    } else {
        steps_text(steps.drop_last()) + sanitized(steps.last()@) + "\n"@
    }
}

/// One workflow: its title as a heading, then its steps in a bash block.
pub open spec fn workflow_text(w: Workflow) -> Seq<char> {
    "### "@ + desc(w.title@) + "\n"@ + "\n"@ + "```bash\n"@ + steps_text(w.steps@) + "```\n"@
        + "\n"@
}

/// The workflows, one after another.
pub open spec fn workflows_text(ws: Seq<Workflow>) -> Seq<char>
    decreases ws.len(),
{
    if ws.len() == 0 {
        Seq::empty()
    } else {
        workflows_text(ws.drop_last()) + workflow_text(ws.last())
    }
}

/// The "Common Workflows" section; empty when there are no workflows.
pub open spec fn workflows_section(ws: Seq<Workflow>) -> Seq<char> {
    if ws.len() == 0 {
        Seq::empty()
    } else {
        "## Common Workflows\n"@ + "\n"@ + workflows_text(ws)
    }
}

/// One row of the mistakes table.
pub open spec fn gotcha_row(g: Gotcha) -> Seq<char> {
    "| "@ + desc(g.wrong@) + " | "@ + desc(g.right@) + " | "@ + desc(g.explanation@) + " |\n"@
}

/// The rows of the mistakes table.
pub open spec fn gotcha_rows(gs: Seq<Gotcha>) -> Seq<char>
    decreases gs.len(),
{
    if gs.len() == 0 {
        Seq::empty()
    } else {
        gotcha_rows(gs.drop_last()) + gotcha_row(gs.last())
    }
}

/// The "Common Mistakes" section; empty when there are no gotchas.
pub open spec fn gotchas_section(gs: Seq<Gotcha>) -> Seq<char> {
    if gs.len() == 0 {
        Seq::empty()
    } else {
        "## Common Mistakes\n"@ + "\n"@ + "| Wrong | Right | Why |\n"@ + "|-------|-------|-----|\n"@
            + gotcha_rows(gs) + "\n"@
    }
}

/// One row of the errors table.
pub open spec fn error_row(e: ErrorSolution) -> Seq<char> {
    "| "@ + desc(e.error@) + " | "@ + desc(e.solution@) + " |\n"@
}

/// The rows of the errors table.
pub open spec fn error_rows(es: Seq<ErrorSolution>) -> Seq<char>
    decreases es.len(),
{
    if es.len() == 0 {
        Seq::empty()
    } else {
        error_rows(es.drop_last()) + error_row(es.last())
    }
}

/// The "Error Messages" section; empty when there are no errors.
pub open spec fn errors_section(es: Seq<ErrorSolution>) -> Seq<char> {
    if es.len() == 0 {
        Seq::empty()
    } else {
        "## Error Messages\n"@ + "\n"@ + "| Error | Solution |\n"@ + "|-------|----------|\n"@
            + error_rows(es) + "\n"@
    }
}

/// The bullet list of key commands.
pub open spec fn key_item_lines(items: Seq<String>) -> Seq<char>
    decreases items.len(),
{
    if items.len() == 0 {
        Seq::empty()
    } else {
        key_item_lines(items.drop_last()) + "- `"@ + escaped(items.last()@) + "`\n"@
    }
}

/// The "Key Commands" section; empty when there are no key items.
pub open spec fn key_items_section(items: Seq<String>) -> Seq<char> {
    if items.len() == 0 {
        Seq::empty()
    } else {
        "## Key Commands\n"@ + "\n"@ + key_item_lines(items) + "\n"@
    }
}

/// The standalone enhanced guide for a tool.
pub open spec fn enhanced_guide_text(tool: Seq<char>, e: EnhancementResponse) -> Seq<char> {
    "# "@ + escaped(tool) + " for AI Agents — Enhanced Guide\n"@ + "\n"@ + key_items_section(
        e.key_items@,
    ) + workflows_section(e.workflows@) + gotchas_section(e.gotchas@) + errors_section(
        e.error_solutions@,
    ) + "---\n"@ + "Enhanced with VertexAI Gemini\n"@
}

// ---------------------------------------------------------------------------
// Formatting
// ---------------------------------------------------------------------------

/// The "Common Workflows" section.
pub fn format_workflows(enhancements: &EnhancementResponse) -> (res: String)
    ensures
        res@ == workflows_section(enhancements.workflows@),
{
    let ws = &enhancements.workflows;
    let mut out = String::new();
    if ws.len() == 0 {
        return out;
    }
    push_str(&mut out, "## Common Workflows\n");
    push_str(&mut out, "\n");
    let ghost head = out@;
    let mut i: usize = 0;
    assert(ws@.take(0) =~= Seq::<Workflow>::empty());
    while i < ws.len()
        invariant
            i <= ws@.len(),
            head == "## Common Workflows\n"@ + "\n"@,
            out@ == head + workflows_text(ws@.take(i as int)),
        decreases ws@.len() - i,
    {
        let wf = &ws[i];
        let ghost before = out@;
        push_str(&mut out, "### ");
        let title = safe_description(wf.title.as_str(), MAX_DESCRIPTION_LENGTH);
        push_str(&mut out, title.as_str());
        push_str(&mut out, "\n");
        push_str(&mut out, "\n");
        push_str(&mut out, "```bash\n");
        let ghost mid = out@;
        let mut j: usize = 0;
        assert(wf.steps@.take(0) =~= Seq::<String>::empty());
        while j < wf.steps.len()
            invariant
                j <= wf.steps@.len(),
                out@ == mid + steps_text(wf.steps@.take(j as int)),
            decreases wf.steps@.len() - j,
        {
            let ghost b2 = out@;
            let line = sanitize_llm_response(wf.steps[j].as_str());
            push_str(&mut out, line.as_str());
            push_str(&mut out, "\n");
            assert(wf.steps@.take(j + 1).drop_last() =~= wf.steps@.take(j as int));
            assert(out@ =~= b2 + sanitized(wf.steps@[j as int]@) + "\n"@);
            j = j + 1;
        }
        assert(wf.steps@.take(j as int) =~= wf.steps@);
        push_str(&mut out, "```\n");
        push_str(&mut out, "\n");
        assert(ws@.take(i + 1).drop_last() =~= ws@.take(i as int));
        assert(out@ =~= before + workflow_text(ws@[i as int]));
        i = i + 1;
    }
    assert(ws@.take(i as int) =~= ws@);
    out
}

/// The "Common Mistakes" section.
pub fn format_gotchas(enhancements: &EnhancementResponse) -> (res: String)
    ensures
        res@ == gotchas_section(enhancements.gotchas@),
{
    let gs = &enhancements.gotchas;
    let mut out = String::new();
    if gs.len() == 0 {
        return out;
    }
    push_str(&mut out, "## Common Mistakes\n");
    push_str(&mut out, "\n");
    push_str(&mut out, "| Wrong | Right | Why |\n");
    push_str(&mut out, "|-------|-------|-----|\n");
    let ghost head = out@;
    let mut i: usize = 0;
    assert(gs@.take(0) =~= Seq::<Gotcha>::empty());
    while i < gs.len()
        invariant
            i <= gs@.len(),
            head == "## Common Mistakes\n"@ + "\n"@ + "| Wrong | Right | Why |\n"@
                + "|-------|-------|-----|\n"@,
            out@ == head + gotcha_rows(gs@.take(i as int)),
        decreases gs@.len() - i,
    {
        let g = &gs[i];
        let ghost before = out@;
        push_str(&mut out, "| ");
        let wrong = safe_description(g.wrong.as_str(), MAX_DESCRIPTION_LENGTH);
        push_str(&mut out, wrong.as_str());
        push_str(&mut out, " | ");
        let right = safe_description(g.right.as_str(), MAX_DESCRIPTION_LENGTH);
        push_str(&mut out, right.as_str());
        push_str(&mut out, " | ");
        let why = safe_description(g.explanation.as_str(), MAX_DESCRIPTION_LENGTH);
        push_str(&mut out, why.as_str());
        push_str(&mut out, " |\n");
        assert(gs@.take(i + 1).drop_last() =~= gs@.take(i as int));
        assert(out@ =~= before + gotcha_row(gs@[i as int]));
        i = i + 1;
    }
    assert(gs@.take(i as int) =~= gs@);
    push_str(&mut out, "\n");
    out
}

/// The "Error Messages" section.
pub fn format_errors(enhancements: &EnhancementResponse) -> (res: String)
    ensures
        res@ == errors_section(enhancements.error_solutions@),
{
    let es = &enhancements.error_solutions;
    let mut out = String::new();
    if es.len() == 0 {
        return out;
    }
    push_str(&mut out, "## Error Messages\n");
    push_str(&mut out, "\n");
    push_str(&mut out, "| Error | Solution |\n");
    push_str(&mut out, "|-------|----------|\n");
    let ghost head = out@;
    let mut i: usize = 0;
    assert(es@.take(0) =~= Seq::<ErrorSolution>::empty());
    while i < es.len()
        invariant
            i <= es@.len(),
            head == "## Error Messages\n"@ + "\n"@ + "| Error | Solution |\n"@
                + "|-------|----------|\n"@,
            out@ == head + error_rows(es@.take(i as int)),
        decreases es@.len() - i,
    {
        let e = &es[i];
        let ghost before = out@;
        push_str(&mut out, "| ");
        let error = safe_description(e.error.as_str(), MAX_DESCRIPTION_LENGTH);
        push_str(&mut out, error.as_str());
        push_str(&mut out, " | ");
        let solution = safe_description(e.solution.as_str(), MAX_DESCRIPTION_LENGTH);
        push_str(&mut out, solution.as_str());
        push_str(&mut out, " |\n");
        assert(es@.take(i + 1).drop_last() =~= es@.take(i as int));
        assert(out@ =~= before + error_row(es@[i as int]));
        i = i + 1;
    }
    assert(es@.take(i as int) =~= es@);
    push_str(&mut out, "\n");
    out
}

/// The "Key Commands" section.
fn format_key_items(enhancements: &EnhancementResponse) -> (res: String)
    ensures
        res@ == key_items_section(enhancements.key_items@),
{
    let items = &enhancements.key_items;
    let mut out = String::new();
    if items.len() == 0 {
        return out;
    }
    push_str(&mut out, "## Key Commands\n");
    push_str(&mut out, "\n");
    let ghost head = out@;
    let mut i: usize = 0;
    assert(items@.take(0) =~= Seq::<String>::empty());
    while i < items.len()
        invariant
            i <= items@.len(),
            head == "## Key Commands\n"@ + "\n"@,
            out@ == head + key_item_lines(items@.take(i as int)),
        decreases items@.len() - i,
    {
        let ghost before = out@;
        push_str(&mut out, "- `");
        let item = escape_markdown(items[i].as_str());
        push_str(&mut out, item.as_str());
        push_str(&mut out, "`\n");
        assert(items@.take(i + 1).drop_last() =~= items@.take(i as int));
        assert(out@ =~= before + "- `"@ + escaped(items@[i as int]@) + "`\n"@);
        i = i + 1;
    }
    assert(items@.take(i as int) =~= items@);
    push_str(&mut out, "\n");
    out
}

/// Format a standalone enhanced guide for the tool named `tool_name`.
pub fn format_enhanced_guide(tool_name: &str, enhancements: &EnhancementResponse) -> (res: String)
    ensures
        res@ == enhanced_guide_text(tool_name@, *enhancements),
{
    let mut out = String::new();
    push_str(&mut out, "# ");
    let name = escape_markdown(tool_name);
    push_str(&mut out, name.as_str());
    push_str(&mut out, " for AI Agents — Enhanced Guide\n");
    push_str(&mut out, "\n");
    let keys = format_key_items(enhancements);
    push_str(&mut out, keys.as_str());
    let wf = format_workflows(enhancements);
    push_str(&mut out, wf.as_str());
    let gs = format_gotchas(enhancements);
    push_str(&mut out, gs.as_str());
    let es = format_errors(enhancements);
    push_str(&mut out, es.as_str());
    push_str(&mut out, "---\n");
    push_str(&mut out, "Enhanced with VertexAI Gemini\n");
    out
}

// ---------------------------------------------------------------------------
// Merging into a base guide
// ---------------------------------------------------------------------------

/// The kinds of line a merge looks for in the base guide.
#[derive(Debug, Clone, Copy, PartialEq, Eq, Structural)]
pub enum LineKind {
    /// The `## ` heading of the Quick Reference.
    QuickReference,
    /// A `## ` heading other than the Quick Reference: the workflows go
    /// before the first one after the Quick Reference.
    Section,
    /// A line starting with `---`: the mistakes and errors go before the
    /// first one.
    Footer,
}

/// `line` is a line of kind `kind`.
pub open spec fn is_line_of(line: Seq<char>, kind: LineKind) -> bool {
    match kind {
        LineKind::QuickReference => starts_with(line, "## "@) && contains(line, "Quick Reference"@),
        LineKind::Section => starts_with(line, "## "@) && !contains(line, "Quick Reference"@),
        LineKind::Footer => starts_with(line, "---"@),
    }
}

/// Index of the first line of kind `kind` at or after line `from`, or -1.
pub open spec fn first_from(lines: Seq<Seq<char>>, from: nat, kind: LineKind) -> int
    decreases lines.len() - from,
{
    if from >= lines.len() {
        -1
    } else if is_line_of(lines[from as int], kind) {
        from as int
    } else {
        first_from(lines, from + 1, kind)
    }
}

proof fn lemma_first_from_bounds(lines: Seq<Seq<char>>, from: nat, kind: LineKind)
    ensures
        first_from(lines, from, kind) == -1 || from <= first_from(lines, from, kind) < lines.len(),
    decreases lines.len() - from,
{
    if from < lines.len() && !is_line_of(lines[from as int], kind) {
        lemma_first_from_bounds(lines, from + 1, kind);
    }
}

/// The line the search for the workflows' place starts at: the one after the
/// Quick Reference heading, or the first line when there is none.
pub open spec fn sections_start(lines: Seq<Seq<char>>) -> nat {
    let q = first_from(lines, 0, LineKind::QuickReference);
    if q >= 0 {
        (q + 1) as nat
    } else {
        0
    }
}

/// The first `n` lines, each ended by a newline, with `wf` inserted before
/// line `wf_at` and `ms` before line `ms_at` (an index outside the lines
/// inserts nothing).
pub open spec fn merged_lines(
    lines: Seq<Seq<char>>,
    n: nat,
    wf_at: int,
    wf: Seq<char>,
    ms_at: int,
    ms: Seq<char>,
) -> Seq<char>
    decreases n,
{
    if n == 0 {
        Seq::empty()
    } else {
        merged_lines(lines, (n - 1) as nat, wf_at, wf, ms_at, ms) + (if n - 1 == wf_at {
            wf
        } else {
            Seq::empty()
        }) + (if n - 1 == ms_at {
            ms
        } else {
            Seq::empty()
        }) + lines[n - 1] + "\n"@
    }
}

/// Where the workflows go: before the first section heading after the Quick
/// Reference, when there are workflows (-1: no such place).
pub open spec fn workflows_at(base: Seq<char>, e: EnhancementResponse) -> int {
    let lines = lines_of(base);
    if e.workflows@.len() > 0 {
        first_from(lines, sections_start(lines), LineKind::Section)
    } else {
        -1
    }
}

/// Where the mistakes and errors go: before the first footer line, when
/// there are gotchas or errors (-1: no such place).
pub open spec fn mistakes_at(base: Seq<char>, e: EnhancementResponse) -> int {
    if e.gotchas@.len() > 0 || e.error_solutions@.len() > 0 {
        first_from(lines_of(base), 0, LineKind::Footer)
    } else {
        -1
    }
}

/// The mistakes and errors sections together.
pub open spec fn mistakes_text(e: EnhancementResponse) -> Seq<char> {
    gotchas_section(e.gotchas@) + errors_section(e.error_solutions@)
}

/// The base's lines, each ended by a newline, with `wf` put where the
/// workflows of `e` go and `ms` where its mistakes and errors go; a block
/// that finds no place is appended at the end.
pub open spec fn merge_layout(base: Seq<char>, e: EnhancementResponse, wf: Seq<char>, ms: Seq<char>) -> Seq<
    char,
> {
    let lines = lines_of(base);
    let wf_at = workflows_at(base, e);
    let ms_at = mistakes_at(base, e);
    merged_lines(lines, lines.len(), wf_at, wf, ms_at, ms) + (if e.workflows@.len() > 0 && wf_at < 0 {
        wf
    } else {
        Seq::empty()
    }) + (if ms_at < 0 && (e.gotchas@.len() > 0 || e.error_solutions@.len() > 0) {
        ms
    } else {
        Seq::empty()
    })
}

/// What merging `e` into `base` yields: the base's lines, each ended by a
/// newline, with the workflows before the first section heading after the
/// Quick Reference and the mistakes and errors before the first footer line;
/// what finds no place is appended at the end. Key commands are not merged.
pub open spec fn merged_text(base: Seq<char>, e: EnhancementResponse) -> Seq<char> {
    merge_layout(base, e, workflows_section(e.workflows@), mistakes_text(e))
}

/// Whether `line` is a line of kind `kind`.
fn is_line_of_exec(line: &Vec<char>, kind: LineKind) -> (res: bool)
    ensures
        res == is_line_of(line@, kind),
{
    match kind {
        LineKind::QuickReference => {
            let h = chars_of("## ");
            let q = chars_of("Quick Reference");
            starts_with_exec(line, &h) && contains_exec(line, &q)
        },
        LineKind::Section => {
            let h = chars_of("## ");
            let q = chars_of("Quick Reference");
            starts_with_exec(line, &h) && !contains_exec(line, &q)
        },
        LineKind::Footer => {
            let r = chars_of("---");
            starts_with_exec(line, &r)
        },
    }
}

/// The place as an index, -1 for none.
pub open spec fn place_index(p: Option<usize>) -> int {
    match p {
        Some(k) => k as int,
        None => -1,
    }
}

/// Index of the first line of kind `kind` at or after line `from`.
fn find_line(lines: &Vec<Vec<char>>, ls: Ghost<Seq<Seq<char>>>, from: usize, kind: LineKind) -> (res: Option<
    usize,
>)
    requires
        lines@.len() == ls@.len(),
        forall|k: int| 0 <= k < lines@.len() ==> #[trigger] lines@[k]@ == ls@[k],
    ensures
        place_index(res) == first_from(ls@, from as nat, kind),
        res matches Some(k) ==> k < lines@.len(),
{
    let mut i = from;
    while i < lines.len()
        invariant
            from <= i || lines@.len() <= from,
            lines@.len() == ls@.len(),
            forall|k: int| 0 <= k < lines@.len() ==> #[trigger] lines@[k]@ == ls@[k],
            first_from(ls@, from as nat, kind) == first_from(ls@, i as nat, kind),
        decreases lines@.len() - i,
    {
        if is_line_of_exec(&lines[i], kind) {
            return Some(i);
        }
        i = i + 1;
    }
    None
}

/// Merge enhancements into a base guide.
pub fn merge_sections(base: &str, enhancements: &EnhancementResponse) -> (res: String)
    ensures
        res@ == merged_text(base@, *enhancements),
{
    let text = chars_of(base);
    let lines = split_lines(&text);
    let ghost ls = lines_of(base@);
    proof {
        assert(lines@.len() == ls.len());
        assert forall|k: int| 0 <= k < lines@.len() implies #[trigger] lines@[k]@ == ls[k] by {
            assert(lines@.map_values(|l: Vec<char>| l@)[k] == lines@[k]@);
        }
    }
    let wf = format_workflows(enhancements);
    let gs = format_gotchas(enhancements);
    let es = format_errors(enhancements);
    let has_wf = enhancements.workflows.len() > 0;
    let has_ms = enhancements.gotchas.len() > 0 || enhancements.error_solutions.len() > 0;
    let quick_ref = find_line(&lines, Ghost(ls), 0, LineKind::QuickReference);
    let n = lines.len();
    let start = match quick_ref {
        Some(q) => {
            assert(q < n);
            q + 1
        },
        None => 0,
    };
    assert(start == sections_start(ls));
    let wf_pos = if has_wf {
        find_line(&lines, Ghost(ls), start, LineKind::Section)
    } else {
        None
    };
    let ms_pos = if has_ms {
        find_line(&lines, Ghost(ls), 0, LineKind::Footer)
    } else {
        None
    };
    let ghost wf_at = workflows_at(base@, *enhancements);
    let ghost ms_at = mistakes_at(base@, *enhancements);
    let ghost ms = mistakes_text(*enhancements);
    assert(place_index(wf_pos) == wf_at);
    assert(place_index(ms_pos) == ms_at);
    let mut out = String::new();
    let mut i: usize = 0;
    while i < lines.len()
        invariant
            lines@.len() == ls.len(),
            forall|k: int| 0 <= k < lines@.len() ==> #[trigger] lines@[k]@ == ls[k],
            i <= lines@.len(),
            place_index(wf_pos) == wf_at,
            place_index(ms_pos) == ms_at,
            out@ == merged_lines(ls, i as nat, wf_at, wf@, ms_at, gs@ + es@),
        decreases lines@.len() - i,
    {
        let line = &lines[i];
        let ghost before = out@;
        if wf_pos == Some(i) {
            push_str(&mut out, wf.as_str());
        }
        let ghost after_wf = out@;
        if ms_pos == Some(i) {
            push_str(&mut out, gs.as_str());
            push_str(&mut out, es.as_str());
        }
        let ghost after_ms = out@;
        push_chars(&mut out, line, 0, line.len());
        push_char(&mut out, '\n');
        proof {
            assert(line@.subrange(0, line@.len() as int) =~= ls[i as int]);
            assert(after_wf =~= before + (if i == wf_at { wf@ } else { Seq::empty() }));
            assert(after_ms =~= after_wf + (if i == ms_at { gs@ + es@ } else { Seq::empty() }));
            reveal_strlit("\n");
            assert(out@ =~= merged_lines(ls, i as nat, wf_at, wf@, ms_at, gs@ + es@) + (if i == wf_at {
                wf@
            } else {
                Seq::empty()
            }) + (if i == ms_at {
                gs@ + es@
            } else {
                Seq::empty()
            }) + ls[i as int] + "\n"@);
        }
        i = i + 1;
    }
    let ghost body = out@;
    if wf_pos.is_none() && has_wf {
        push_str(&mut out, wf.as_str());
    }
    let ghost after_wf = out@;
    if ms_pos.is_none() && has_ms {
        push_str(&mut out, gs.as_str());
        push_str(&mut out, es.as_str());
    }
    proof {
        assert(gs@ + es@ == ms);
        assert(after_wf =~= body + (if enhancements.workflows@.len() > 0 && wf_at < 0 {
            wf@
        } else {
            Seq::empty()
        }));
        assert(out@ =~= after_wf + (if ms_at < 0 && (enhancements.gotchas@.len() > 0
            || enhancements.error_solutions@.len() > 0) {
            ms
        } else {
            Seq::empty()
        }));
    }
    out
}

/// Merge enhancements into an existing base guide.
pub fn merge_enhancements_into(base_guide: &str, enhancements: &EnhancementResponse) -> (res: String)
    ensures
        res@ == merged_text(base_guide@, *enhancements),
{
    merge_sections(base_guide, enhancements)
}

// ---------------------------------------------------------------------------
// Standalone guide, prompts and replies
// ---------------------------------------------------------------------------

/// The tool name an IR document gives, or `Unknown Tool`.
pub fn extract_tool_name(ir_json: &str) -> (res: String)
    ensures
        res@ == tool_name_of(ir_json@),
{
    match top_level_fields(ir_json) {
        Ok(fields) => match tool_name_from_fields(&fields) {
            Some(name) => name,
            None => String::from_str("Unknown Tool"),
        },
        Err(_) => String::from_str("Unknown Tool"),
    }
}

/// Format a standalone enhanced guide (no base guide).
pub fn format_standalone(ir_json: &str, enhancements: &EnhancementResponse) -> (res: String)
    ensures
        res@ == enhanced_guide_text(tool_name_of(ir_json@), *enhancements),
{
    let tool_name = extract_tool_name(ir_json);
    format_enhanced_guide(tool_name.as_str(), enhancements)
}

/// The guide type a document shows, taken to be a CLI when it shows none.
pub open spec fn guide_type_or_cli(ir: Seq<char>) -> GuideType {
    match json_top_level(ir) {
        Some(fields) => match guide_type_of(fields) {
            Some(g) => g,
            None => GuideType::Cli,
        },
        None => GuideType::Cli,
    }
}

/// Generate the enhancement prompt for --dry-run mode.
pub fn dry_run_prompt(ir_json: &str) -> (res: String)
    ensures
        res@ == enhancement_prompt_text(tool_name_of(ir_json@), ir_json@, guide_type_or_cli(ir_json@)),
{
    let guide_type = match detect_guide_type(ir_json) {
        Ok(g) => g,
        Err(_) => GuideType::Cli,
    };
    let tool_name = extract_tool_name(ir_json);
    let req = EnhancementRequest { tool_name, ir_json: String::from_str(ir_json), guide_type };
    build_enhancement_prompt(&req)
}

/// The prompt sent to the model for an IR document, or why the document
/// was refused.
pub fn enhancement_prompt_for(ir_json: &str) -> (res: Result<String, IrError>)
    ensures
        match json_top_level(ir_json@) {
            None => res matches Err(IrError::InvalidJson(_)),
            Some(fields) => match guide_type_of(fields) {
                Some(g) => res matches Ok(p) && p@ == enhancement_prompt_text(
                    tool_name_of(ir_json@),
                    ir_json@,
                    g,
                ),
                None => res matches Err(IrError::UnknownIrType),
            },
        },
{
    let guide_type = match detect_guide_type(ir_json) {
        Ok(g) => g,
        Err(e) => return Err(e),
    };
    let tool_name = extract_tool_name(ir_json);
    let req = EnhancementRequest { tool_name, ir_json: String::from_str(ir_json), guide_type };
    Ok(build_enhancement_prompt(&req))
}

/// Whether a reply of the model is small enough to decode: replies over
/// `MAX_LLM_RESPONSE_SIZE` bytes give empty enhancements.
pub fn reply_within_limit(reply: &str) -> (res: bool)
    ensures
        res == (byte_len(reply@) <= MAX_LLM_RESPONSE_SIZE),
{
    let v = chars_of(reply);
    !byte_len_exceeds(&v, MAX_LLM_RESPONSE_SIZE)
}

// ---------------------------------------------------------------------------
// Laws of the sections
// ---------------------------------------------------------------------------

/// Law: the mistakes table has one row per gotcha, in order. One gotcha
/// gives the heading, the table head and its row; each further gotcha adds
/// its own row `| wrong | right | why |` at the end of the table.
pub proof fn law_gotcha_rows(gs: Seq<Gotcha>, g: Gotcha)
    ensures
        gotchas_section(seq![g]) == "## Common Mistakes\n\n| Wrong | Right | Why |\n|-------|-------|-----|\n"@
            + "| "@ + desc(g.wrong@) + " | "@ + desc(g.right@) + " | "@ + desc(g.explanation@) + " |\n"@
            + "\n"@,
        gs.len() > 0 ==> gotchas_section(gs.push(g)) == gotchas_section(gs).drop_last() + "| "@ + desc(
            g.wrong@,
        ) + " | "@ + desc(g.right@) + " | "@ + desc(g.explanation@) + " |\n"@ + "\n"@,
{
    reveal_strlit("## Common Mistakes\n\n| Wrong | Right | Why |\n|-------|-------|-----|\n");
    reveal_strlit("## Common Mistakes\n");
    reveal_strlit("\n");
    reveal_strlit("| Wrong | Right | Why |\n");
    reveal_strlit("|-------|-------|-----|\n");
    let one = seq![g];
    assert(one.drop_last() =~= Seq::<Gotcha>::empty());
    assert(one.last() == g);
    assert(gotcha_rows(one.drop_last()) =~= Seq::<char>::empty());
    assert(gotcha_rows(one) =~= gotcha_rows(one.drop_last()) + gotcha_row(g));
    assert(gotcha_rows(one) =~= gotcha_row(g));
    assert(gotchas_section(one) =~= "## Common Mistakes\n\n| Wrong | Right | Why |\n|-------|-------|-----|\n"@
        + gotcha_row(g) + "\n"@);
    if gs.len() > 0 {
        let more = gs.push(g);
        assert(more.drop_last() =~= gs);
        let head = "## Common Mistakes\n"@ + "\n"@ + "| Wrong | Right | Why |\n"@ + "|-------|-------|-----|\n"@;
        assert((head + gotcha_rows(gs) + "\n"@).drop_last() =~= head + gotcha_rows(gs));
        assert(gotchas_section(more) =~= head + gotcha_rows(gs) + gotcha_row(g) + "\n"@);
    }
}

/// Law: the errors table has one row per error, in order. One error gives
/// the heading, the table head and its row; each further error adds its own
/// row `| error | solution |` at the end of the table.
pub proof fn law_error_rows(es: Seq<ErrorSolution>, x: ErrorSolution)
    ensures
        errors_section(seq![x]) == "## Error Messages\n\n| Error | Solution |\n|-------|----------|\n"@
            + "| "@ + desc(x.error@) + " | "@ + desc(x.solution@) + " |\n"@ + "\n"@,
        es.len() > 0 ==> errors_section(es.push(x)) == errors_section(es).drop_last() + "| "@ + desc(
            x.error@,
        ) + " | "@ + desc(x.solution@) + " |\n"@ + "\n"@,
{
    reveal_strlit("## Error Messages\n\n| Error | Solution |\n|-------|----------|\n");
    reveal_strlit("## Error Messages\n");
    reveal_strlit("\n");
    reveal_strlit("| Error | Solution |\n");
    reveal_strlit("|-------|----------|\n");
    let one = seq![x];
    assert(one.drop_last() =~= Seq::<ErrorSolution>::empty());
    assert(one.last() == x);
    assert(error_rows(one.drop_last()) =~= Seq::<char>::empty());
    assert(error_rows(one) =~= error_rows(one.drop_last()) + error_row(x));
    assert(error_rows(one) =~= error_row(x));
    assert(errors_section(one) =~= "## Error Messages\n\n| Error | Solution |\n|-------|----------|\n"@
        + error_row(x) + "\n"@);
    if es.len() > 0 {
        let more = es.push(x);
        assert(more.drop_last() =~= es);
        let head = "## Error Messages\n"@ + "\n"@ + "| Error | Solution |\n"@ + "|-------|----------|\n"@;
        assert((head + error_rows(es) + "\n"@).drop_last() =~= head + error_rows(es));
        assert(errors_section(more) =~= head + error_rows(es) + error_row(x) + "\n"@);
    }
}

/// Law: the workflows section shows every workflow, in order, each as its
/// title's heading and a bash block with one sanitised line per step.
pub proof fn law_workflow_blocks(ws: Seq<Workflow>, w: Workflow, steps: Seq<String>, step: String)
    ensures
        workflows_section(seq![w]) == "## Common Workflows\n\n### "@ + desc(w.title@) + "\n\n```bash\n"@
            + steps_text(w.steps@) + "```\n\n"@,
        ws.len() > 0 ==> workflows_section(ws.push(w)) == workflows_section(ws) + "### "@ + desc(w.title@)
            + "\n\n```bash\n"@ + steps_text(w.steps@) + "```\n\n"@,
        steps_text(seq![]) == Seq::<char>::empty(),
        steps_text(steps.push(step)) == steps_text(steps) + sanitized(step@) + "\n"@,
{
    reveal_strlit("## Common Workflows\n\n### ");
    reveal_strlit("## Common Workflows\n");
    reveal_strlit("\n\n```bash\n");
    reveal_strlit("```\n\n");
    reveal_strlit("### ");
    reveal_strlit("\n");
    reveal_strlit("```bash\n");
    reveal_strlit("```\n");
    let one = seq![w];
    assert(one.drop_last() =~= Seq::<Workflow>::empty());
    assert(one.last() == w);
    assert(workflows_text(one.drop_last()) =~= Seq::<char>::empty());
    assert(workflows_text(one) =~= workflows_text(one.drop_last()) + workflow_text(w));
    assert(workflows_text(one) =~= workflow_text(w));
    assert(workflows_section(one) =~= "## Common Workflows\n\n### "@ + desc(w.title@) + "\n\n```bash\n"@
        + steps_text(w.steps@) + "```\n\n"@);
    if ws.len() > 0 {
        let more = ws.push(w);
        assert(more.drop_last() =~= ws);
        assert(workflows_section(more) =~= workflows_section(ws) + "### "@ + desc(w.title@)
            + "\n\n```bash\n"@ + steps_text(w.steps@) + "```\n\n"@);
    }
    assert(steps.push(step).drop_last() =~= steps);
}

/// Law: the key commands list has one bullet per key item, in order, each
/// the escaped item in backticks.
pub proof fn law_key_item_bullets(items: Seq<String>, item: String)
    ensures
        key_items_section(seq![item]) == "## Key Commands\n\n- `"@ + escaped(item@) + "`\n\n"@,
        items.len() > 0 ==> key_items_section(items.push(item)) == key_items_section(items).drop_last()
            + "- `"@ + escaped(item@) + "`\n"@ + "\n"@,
{
    reveal_strlit("## Key Commands\n\n- `");
    reveal_strlit("## Key Commands\n");
    reveal_strlit("\n");
    reveal_strlit("- `");
    reveal_strlit("`\n");
    reveal_strlit("`\n\n");
    let one = seq![item];
    assert(one.drop_last() =~= Seq::<String>::empty());
    assert(one.last() == item);
    assert(key_item_lines(one.drop_last()) =~= Seq::<char>::empty());
    assert(key_item_lines(one) =~= key_item_lines(one.drop_last()) + "- `"@ + escaped(item@) + "`\n"@);
    assert(key_items_section(one) =~= "## Key Commands\n\n- `"@ + escaped(item@) + "`\n\n"@);
    if items.len() > 0 {
        let more = items.push(item);
        assert(more.drop_last() =~= items);
        let head = "## Key Commands\n"@ + "\n"@;
        assert((head + key_item_lines(items) + "\n"@).drop_last() =~= head + key_item_lines(items));
        assert(key_items_section(more) =~= head + key_item_lines(items) + "- `"@ + escaped(item@)
            + "`\n"@ + "\n"@);
    }
}

// ---------------------------------------------------------------------------
// Laws of merging
// ---------------------------------------------------------------------------

/// Lines, each ended by a newline.
pub open spec fn joined(lines: Seq<Seq<char>>) -> Seq<char>
    decreases lines.len(),
{
    if lines.len() == 0 {
        Seq::empty()
    } else {
        joined(lines.drop_last()) + lines.last() + "\n"@
    }
}

/// Between lines `m` and `n` nothing is inserted, so the merge grows by those
/// lines alone.
proof fn lemma_merged_lines_plain(
    lines: Seq<Seq<char>>,
    m: nat,
    n: nat,
    wf_at: int,
    wf: Seq<char>,
    ms_at: int,
    ms: Seq<char>,
)
    requires
        m <= n <= lines.len(),
        !(m <= wf_at < n),
        !(m <= ms_at < n),
    ensures
        merged_lines(lines, n, wf_at, wf, ms_at, ms) == merged_lines(lines, m, wf_at, wf, ms_at, ms)
            + joined(lines.subrange(m as int, n as int)),
    decreases n - m,
{
    if n == m {
        assert(lines.subrange(m as int, n as int) =~= Seq::<Seq<char>>::empty());
    } else {
        let k = (n - 1) as nat;
        lemma_merged_lines_plain(lines, m, k, wf_at, wf, ms_at, ms);
        assert(lines.subrange(m as int, n as int).drop_last() =~= lines.subrange(m as int, k as int));
        assert(merged_lines(lines, n, wf_at, wf, ms_at, ms) =~= merged_lines(lines, k, wf_at, wf, ms_at, ms)
            + lines[k as int] + "\n"@);
    }
}

/// With nothing to insert, the first `n` merged lines are those lines.
proof fn lemma_merged_lines_empty(lines: Seq<Seq<char>>, n: nat, wf_at: int, ms_at: int)
    requires
        n <= lines.len(),
    ensures
        merged_lines(lines, n, wf_at, Seq::empty(), ms_at, Seq::empty()) == joined(lines.take(n as int)),
    decreases n,
{
    if n > 0 {
        let k = (n - 1) as nat;
        lemma_merged_lines_empty(lines, k, wf_at, ms_at);
        assert(lines.take(n as int).drop_last() =~= lines.take(k as int));
        assert(lines.take(n as int).last() == lines[k as int]);
        assert(merged_lines(lines, n, wf_at, Seq::empty(), ms_at, Seq::empty()) =~= merged_lines(
            lines,
            k,
            wf_at,
            Seq::empty(),
            ms_at,
            Seq::empty(),
        ) + lines[k as int] + "\n"@);
    } else {
        assert(lines.take(0) =~= Seq::<Seq<char>>::empty());
    }
}

/// Law: the base guide's structure is kept; taking the inserted sections out
/// of any merge (putting nothing where they go) leaves exactly the base
/// guide's lines, each ended by a newline.
pub proof fn law_merge_keeps_base_lines(base: Seq<char>, e: EnhancementResponse)
    ensures
        merge_layout(base, e, Seq::empty(), Seq::empty()) == joined(lines_of(base)),
        merged_text(base, e) == merge_layout(base, e, workflows_section(e.workflows@), mistakes_text(e)),
{
    let ls = lines_of(base);
    lemma_merged_lines_empty(ls, ls.len(), workflows_at(base, e), mistakes_at(base, e));
    assert(ls.take(ls.len() as int) =~= ls);
    assert(merge_layout(base, e, Seq::empty(), Seq::empty()) =~= merged_lines(
        ls,
        ls.len(),
        workflows_at(base, e),
        Seq::empty(),
        mistakes_at(base, e),
        Seq::empty(),
    ));
}

/// Law: merging a response with no workflows, gotchas or errors gives back
/// the base guide's lines unchanged, each ended by a newline.
pub proof fn law_merge_without_enhancements(base: Seq<char>, e: EnhancementResponse)
    requires
        e.workflows@.len() == 0,
        e.gotchas@.len() == 0,
        e.error_solutions@.len() == 0,
    ensures
        merged_text(base, e) == joined(lines_of(base)),
{
    law_merge_keeps_base_lines(base, e);
    assert(workflows_section(e.workflows@) =~= Seq::<char>::empty());
    assert(mistakes_text(e) =~= Seq::<char>::empty());
}

/// Law: key commands play no part in merge mode; two responses that differ
/// only in their key items merge identically.
pub proof fn law_merge_ignores_key_items(
    base: Seq<char>,
    e1: EnhancementResponse,
    e2: EnhancementResponse,
)
    requires
        e1.workflows@ == e2.workflows@,
        e1.gotchas@ == e2.gotchas@,
        e1.error_solutions@ == e2.error_solutions@,
    ensures
        merged_text(base, e1) == merged_text(base, e2),
{
}

/// Law: when the workflows' place (the first section heading after the
/// Quick Reference) comes before the footer, the merge is the base guide's
/// lines with the workflows right before that heading and the mistakes and
/// errors right before the footer, and nothing else.
#[verifier::spinoff_prover]
#[verifier::rlimit(60)]
pub proof fn law_merge_places_sections(base: Seq<char>, e: EnhancementResponse)
    requires
        0 <= workflows_at(base, e) < mistakes_at(base, e),
    ensures
        ({
            let ls = lines_of(base);
            let a = workflows_at(base, e);
            let b = mistakes_at(base, e);
            merged_text(base, e) == joined(ls.take(a)) + workflows_section(e.workflows@) + joined(
                ls.subrange(a, b),
            ) + mistakes_text(e) + joined(ls.skip(b))
        }),
{
    let ls = lines_of(base);
    let a = workflows_at(base, e);
    let b = mistakes_at(base, e);
    let wf = workflows_section(e.workflows@);
    let ms = mistakes_text(e);
    lemma_first_from_bounds(ls, 0, LineKind::Footer);
    lemma_merged_lines_plain(ls, 0, a as nat, a, wf, b, ms);
    lemma_merged_lines_plain(ls, (a + 1) as nat, b as nat, a, wf, b, ms);
    lemma_merged_lines_plain(ls, (b + 1) as nat, ls.len(), a, wf, b, ms);
    let nl = "\n"@;
    assert(merged_lines(ls, (a + 1) as nat, a, wf, b, ms) =~= merged_lines(ls, a as nat, a, wf, b, ms)
        + wf + ls[a] + nl);
    assert(merged_lines(ls, (b + 1) as nat, a, wf, b, ms) =~= merged_lines(ls, b as nat, a, wf, b, ms)
        + ms + ls[b] + nl);
    assert(ls.subrange(0, a) =~= ls.take(a));
    lemma_joined_front(ls.subrange(a, b));
    lemma_joined_front(ls.skip(b));
    assert(ls.subrange(a, b).drop_first() =~= ls.subrange(a + 1, b));
    assert(ls.skip(b).drop_first() =~= ls.subrange(b + 1, ls.len() as int));
    assert(ls.subrange(a, b)[0] == ls[a]);
    assert(ls.skip(b)[0] == ls[b]);
    assert(merged_text(base, e) =~= merged_lines(ls, ls.len(), a, wf, b, ms));
}

/// The first line of kind `kind` at or after `from` is line `h` when none
/// before it is of that kind (`h` past the end: there is none).
proof fn lemma_first_from_is(lines: Seq<Seq<char>>, from: nat, kind: LineKind, h: int)
    requires
        from <= h <= lines.len(),
        forall|i: int| from <= i < h ==> !is_line_of(#[trigger] lines[i], kind),
        h < lines.len() ==> is_line_of(lines[h], kind),
    ensures
        first_from(lines, from, kind) == (if h < lines.len() { h } else { -1 }),
    decreases h - from,
{
    if from < h {
        lemma_first_from_is(lines, from + 1, kind, h);
    }
}

/// The line `first_from` finds is of the kind looked for.
proof fn lemma_first_from_found(lines: Seq<Seq<char>>, from: nat, kind: LineKind)
    ensures
        first_from(lines, from, kind) >= 0 ==> is_line_of(lines[first_from(lines, from, kind)], kind),
    decreases lines.len() - from,
{
    if from < lines.len() && !is_line_of(lines[from as int], kind) {
        lemma_first_from_found(lines, from + 1, kind);
    }
}

/// The first `m` merged lines begin the first `n`.
proof fn lemma_merged_lines_prefix(
    lines: Seq<Seq<char>>,
    m: nat,
    n: nat,
    wf_at: int,
    wf: Seq<char>,
    ms_at: int,
    ms: Seq<char>,
)
    requires
        m <= n,
    ensures
        starts_with(merged_lines(lines, n, wf_at, wf, ms_at, ms), merged_lines(lines, m, wf_at, wf, ms_at, ms)),
    decreases n - m,
{
    let p = merged_lines(lines, m, wf_at, wf, ms_at, ms);
    if m == n {
        assert(p.take(p.len() as int) =~= p);
    } else {
        let k = (n - 1) as nat;
        lemma_merged_lines_prefix(lines, m, k, wf_at, wf, ms_at, ms);
        let x = merged_lines(lines, k, wf_at, wf, ms_at, ms);
        let s = merged_lines(lines, n, wf_at, wf, ms_at, ms);
        assert(s.take(x.len() as int) =~= x);
        assert(s.take(p.len() as int) =~= x.take(p.len() as int));
    }
}

/// Law: with workflows to merge, every line that starts with `## ` and does
/// not name the Quick Reference is a section heading. The workflows go right
/// before the first such heading after the Quick Reference heading (the first
/// line that starts with `## ` and names it), or after the start when there
/// is none: the merge begins with the base's lines up to that heading, the
/// Common Workflows section and the heading, unless the mistakes are placed
/// earlier.
pub proof fn law_workflows_before_first_section_heading(
    base: Seq<char>,
    e: EnhancementResponse,
    q: int,
    h: int,
)
    requires
        e.workflows@.len() > 0,
        -1 <= q < h < lines_of(base).len(),
        q >= 0 ==> starts_with(lines_of(base)[q], "## "@) && contains(
            lines_of(base)[q],
            "Quick Reference"@,
        ),
        forall|i: int|
            0 <= i < lines_of(base).len() && (q < 0 || i < q) ==> !(starts_with(
                #[trigger] lines_of(base)[i],
                "## "@,
            ) && contains(lines_of(base)[i], "Quick Reference"@)),
        starts_with(lines_of(base)[h], "## "@),
        !contains(lines_of(base)[h], "Quick Reference"@),
        forall|i: int|
            q < i < h ==> !(starts_with(#[trigger] lines_of(base)[i], "## "@) && !contains(
                lines_of(base)[i],
                "Quick Reference"@,
            )),
    ensures
        workflows_at(base, e) == h,
        !(0 <= mistakes_at(base, e) < h) ==> starts_with(
            merged_text(base, e),
            joined(lines_of(base).take(h)) + workflows_section(e.workflows@) + lines_of(base)[h] + "\n"@,
        ),
{
    let ls = lines_of(base);
    if q >= 0 {
        lemma_first_from_is(ls, 0, LineKind::QuickReference, q);
    } else {
        lemma_first_from_is(ls, 0, LineKind::QuickReference, ls.len() as int);
    }
    let s = sections_start(ls);
    assert(s == q + 1);
    lemma_first_from_is(ls, s, LineKind::Section, h);
    let a = workflows_at(base, e);
    let b = mistakes_at(base, e);
    let wf = workflows_section(e.workflows@);
    let ms = mistakes_text(e);
    if !(0 <= b < h) {
        if b == h {
            lemma_first_from_found(ls, 0, LineKind::Footer);
            reveal_strlit("## ");
            reveal_strlit("---");
            assert(ls[h].take(2)[0] == ls[h].take(3)[0]);
            assert(false);
        }
        lemma_merged_lines_plain(ls, 0, h as nat, a, wf, b, ms);
        assert(ls.subrange(0, h) =~= ls.take(h));
        assert(merged_lines(ls, 0, a, wf, b, ms) =~= Seq::<char>::empty());
        let p = merged_lines(ls, (h + 1) as nat, a, wf, b, ms);
        assert(p =~= merged_lines(ls, h as nat, a, wf, b, ms) + wf + ls[h] + "\n"@);
        assert(p =~= joined(ls.take(h)) + wf + ls[h] + "\n"@);
        lemma_merged_lines_prefix(ls, (h + 1) as nat, ls.len(), a, wf, b, ms);
        let full = merged_lines(ls, ls.len(), a, wf, b, ms);
        let m = merged_text(base, e);
        assert(m.take(full.len() as int) =~= full);
        assert(m.take(p.len() as int) =~= full.take(p.len() as int));
    }
}

/// Law: with gotchas or errors to merge, the Common Mistakes and Error
/// Messages sections go right before the first line that starts with `---`
/// (the footer): the merge begins with the base's lines up to the footer,
/// both sections and the footer, unless the workflows are placed earlier.
pub proof fn law_mistakes_before_footer(base: Seq<char>, e: EnhancementResponse, f: int)
    requires
        e.gotchas@.len() > 0 || e.error_solutions@.len() > 0,
        0 <= f < lines_of(base).len(),
        starts_with(lines_of(base)[f], "---"@),
        forall|i: int| 0 <= i < f ==> !starts_with(#[trigger] lines_of(base)[i], "---"@),
    ensures
        mistakes_at(base, e) == f,
        !(0 <= workflows_at(base, e) < f) ==> starts_with(
            merged_text(base, e),
            joined(lines_of(base).take(f)) + gotchas_section(e.gotchas@) + errors_section(
                e.error_solutions@,
            ) + lines_of(base)[f] + "\n"@,
        ),
{
    let ls = lines_of(base);
    lemma_first_from_is(ls, 0, LineKind::Footer, f);
    let a = workflows_at(base, e);
    let b = mistakes_at(base, e);
    let wf = workflows_section(e.workflows@);
    let ms = mistakes_text(e);
    if !(0 <= a < f) {
        if a == f {
            lemma_first_from_found(ls, sections_start(ls), LineKind::Section);
            reveal_strlit("## ");
            reveal_strlit("---");
            assert(ls[f].take(2)[0] == ls[f].take(3)[0]);
            assert(false);
        }
        lemma_merged_lines_plain(ls, 0, f as nat, a, wf, b, ms);
        assert(ls.subrange(0, f) =~= ls.take(f));
        assert(merged_lines(ls, 0, a, wf, b, ms) =~= Seq::<char>::empty());
        let p = merged_lines(ls, (f + 1) as nat, a, wf, b, ms);
        assert(p =~= merged_lines(ls, f as nat, a, wf, b, ms) + ms + ls[f] + "\n"@);
        assert(p =~= joined(ls.take(f)) + gotchas_section(e.gotchas@) + errors_section(e.error_solutions@)
            + ls[f] + "\n"@);
        lemma_merged_lines_prefix(ls, (f + 1) as nat, ls.len(), a, wf, b, ms);
        let full = merged_lines(ls, ls.len(), a, wf, b, ms);
        let m = merged_text(base, e);
        assert(m.take(full.len() as int) =~= full);
        assert(m.take(p.len() as int) =~= full.take(p.len() as int));
    }
}

/// Joining peels off the first line too.
proof fn lemma_joined_front(lines: Seq<Seq<char>>)
    requires
        lines.len() > 0,
    ensures
        joined(lines) == lines[0] + "\n"@ + joined(lines.drop_first()),
    decreases lines.len(),
{
    if lines.len() == 1 {
        assert(lines.drop_last() =~= Seq::<Seq<char>>::empty());
        assert(lines.drop_first() =~= Seq::<Seq<char>>::empty());
        assert(joined(lines) =~= lines[0] + "\n"@ + joined(lines.drop_first()));
    } else {
        lemma_joined_front(lines.drop_last());
        assert(lines.drop_last().drop_first() =~= lines.drop_first().drop_last());
        assert(lines.drop_first().last() == lines.last());
        assert(joined(lines) =~= lines[0] + "\n"@ + joined(lines.drop_first()));
    }
}

} // verus!
