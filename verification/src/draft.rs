//! Drafts: several notes made into one document, either one after the other or by a chat model.

use crate::chat::{plan_question, AppError, ChatPlan};
use crate::reply::{head_line, strip_llm_preamble};
use crate::text::{
    chars_of, contains, copy_chars, count_markers, ends_with, fill, index_of, is_one_of, join,
    lines, replace, same, starts_with, text_of, to_decimal, to_lower, trim, trim_end, trim_start,
    trim_text,
};
use vstd::prelude::*;
use vstd::slice::slice_subrange;

verus! {

/// The prompt for a draft, unless the user has one of their own.
pub const DEFAULT_DRAFT_PROMPT_TEMPLATE: &'static str = "Reconstruct the following notes into one coherent document.\n\nRules:\n- Output in the same language as the input.\n- Merge duplicate content.\n- Use appropriate Markdown headings (#, ##), paragraphs, and bullet lists for readability.\n- Do not add information that is not present in the input.\n- Respect the note order while creating a natural flow.\n- Do not output a preface, explanation, or code fence.\n- Output only the Markdown body.\n{instruction}\n\nInput notes:\n{notes}";

// ---------------------------------------------------------------------------
// The prompt
// ---------------------------------------------------------------------------

/// The template that is used: the user's own, trimmed, or the default where there is none.
pub open spec fn template_of(own: Option<Seq<char>>) -> Seq<char> {
    match crate::text::filled(own) {
        Some(t) => t,
        None => DEFAULT_DRAFT_PROMPT_TEMPLATE@,
    }
}

/// The user's instruction, trimmed; nothing where there is none.
pub open spec fn instruction_of(own: Option<Seq<char>>) -> Seq<char> {
    match crate::text::filled(own) {
        Some(t) => t,
        None => Seq::empty(),
    }
}

/// The template with its placeholders filled in, one after the other.
pub open spec fn filled_template(
    template: Seq<char>,
    bodies: Seq<char>,
    instruction: Seq<char>,
    instruction_block: Seq<char>,
) -> Seq<char> {
    let a = crate::text::replaced(template, "{notes}"@, bodies);
    let b = crate::text::replaced(a, "{input_notes}"@, bodies);
    let c = crate::text::replaced(b, "{instruction}"@, crate::text::trimmed(instruction_block));
    crate::text::replaced(c, "{additional_instruction}"@, instruction)
}

/// What is appended to a filled template: the notes, and the instruction, where the template has
/// no place for them.
pub open spec fn prompt_tail(
    template: Seq<char>,
    bodies: Seq<char>,
    instruction: Seq<char>,
) -> Seq<char> {
    let notes = if crate::text::has_text(template, "{notes}"@) || crate::text::has_text(
        template,
        "{input_notes}"@,
    ) {
        Seq::empty()
    } else {
        "\n\nInput notes:\n"@ + bodies
    };
    let orders = if instruction.len() == 0 || crate::text::has_text(template, "{instruction}"@)
        || crate::text::has_text(template, "{additional_instruction}"@) {
        Seq::empty()
    } else {
        "\n\nAdditional instruction:\n"@ + instruction
    };
    notes + orders
}

/// The prompt that the model is given for a draft.
pub open spec fn draft_prompt(
    own_template: Option<Seq<char>>,
    bodies: Seq<char>,
    own_instruction: Option<Seq<char>>,
    instruction_block: Seq<char>,
) -> Seq<char> {
    let template = template_of(own_template);
    let instruction = instruction_of(own_instruction);
    crate::text::trimmed(
        filled_template(template, bodies, instruction, instruction_block) + prompt_tail(
            template,
            bodies,
            instruction,
        ),
    )
}

/// The prompt for a draft: the template with its placeholders filled in, and the notes and the
/// instruction appended where the template has no place for them.
pub fn build_draft_prompt(
    prompt_template: Option<&str>,
    bodies: &str,
    instruction: Option<&str>,
    instruction_block: &str,
) -> (r: String)
    ensures
        r@ == draft_prompt(
            crate::text::opt_str_view(prompt_template),
            bodies@,
            crate::text::opt_str_view(instruction),
            instruction_block@,
        ),
{
    proof {
        reveal_strlit("{notes}");
        reveal_strlit("{input_notes}");
        reveal_strlit("{instruction}");
        reveal_strlit("{additional_instruction}");
    }
    let template = match fill(prompt_template) {
        Some(t) => t,
        None => DEFAULT_DRAFT_PROMPT_TEMPLATE.to_owned(),
    };
    let orders = match fill(instruction) {
        Some(t) => t,
        None => String::new(),
    };
    assert(orders@ =~= instruction_of(crate::text::opt_str_view(instruction)));
    let t = chars_of(template.as_str());
    let block = trim_text(instruction_block);
    let a = replace(t.as_slice(), "{notes}", bodies);
    let b = replace(a.as_slice(), "{input_notes}", bodies);
    let c = replace(b.as_slice(), "{instruction}", block.as_str());
    let d = replace(c.as_slice(), "{additional_instruction}", orders.as_str());
    let mut prompt = text_of(d.as_slice());
    let ghost before = prompt@;
    let mut notes_tail = String::new();
    if !contains(t.as_slice(), "{notes}") && !contains(t.as_slice(), "{input_notes}") {
        notes_tail = "\n\nInput notes:\n".to_owned();
        notes_tail.append(bodies);
    }
    let mut orders_tail = String::new();
    if !orders.as_str().is_empty() && !contains(t.as_slice(), "{instruction}") && !contains(
        t.as_slice(),
        "{additional_instruction}",
    ) {
        orders_tail = "\n\nAdditional instruction:\n".to_owned();
        orders_tail.append(orders.as_str());
    }
    prompt.append(notes_tail.as_str());
    prompt.append(orders_tail.as_str());
    assert(notes_tail@ + orders_tail@ =~= prompt_tail(template@, bodies@, orders@));
    assert(prompt@ =~= before + prompt_tail(template@, bodies@, orders@));
    trim_text(prompt.as_str())
}

// ---------------------------------------------------------------------------
// The reply
// ---------------------------------------------------------------------------

/// The labels that a model may put before the article, in small letters.
pub open spec fn article_labels() -> Seq<Seq<char>> {
    seq![
        "final article:"@,
        "article:"@,
        "draft:"@,
        "markdown:"@,
        "output:"@,
        "本文:"@,
        "最終記事:"@,
        "ドラフト:"@,
    ]
}

/// Whether a line is nothing but a label.
pub open spec fn is_label_line(line: Seq<char>) -> bool {
    article_labels().contains(crate::text::lowered(crate::text::trimmed(line)))
}

/// `s` without the label lines that it begins with.
pub open spec fn without_labels(s: Seq<char>) -> Seq<char>
    decreases s.len(),
{
    let line = crate::reply::first_line(s);
    if 0 < line.len() <= s.len() && is_label_line(line) {
        proof {
            lemma_trimmed_start_len(s.skip(line.len() as int));
        }
        without_labels(crate::text::trimmed_start(s.skip(line.len() as int)))
    } else {
        s
    }
}

/// `s` without the code fence around it.
pub open spec fn without_fence(s: Seq<char>) -> Seq<char> {
    if crate::text::begins(s, "```"@) {
        let e = crate::text::next_index(s, '\n', 0);
        let body = if e < s.len() {
            crate::text::trimmed(s.skip(e + 1))
        } else {
            s
        };
        if crate::text::ends(body, "```"@) {
            crate::text::trimmed_end(body.take(body.len() - "```"@.len()))
        } else {
            body
        }
    } else {
        s
    }
}

/// The article in a reply: without preamble, code fence and labels.
pub open spec fn article_of(s: Seq<char>) -> Seq<char> {
    let plain = crate::text::trimmed(crate::reply::plain_answer(s));
    crate::text::trimmed(without_labels(without_fence(plain)))
}

/// A trimmed text is no longer than the text.
pub proof fn lemma_trimmed_start_len(s: Seq<char>)
    ensures
        crate::text::trimmed_start(s).len() <= s.len(),
    decreases s.len(),
{
    if s.len() > 0 && crate::text::is_white(s[0]) {
        lemma_trimmed_start_len(s.skip(1));
    }
}

/// The first line is a part of the text that begins it.
proof fn lemma_first_line_len(s: Seq<char>)
    ensures
        crate::reply::first_line(s).len() <= s.len(),
{
    if s.len() > 0 {
        crate::text::lemma_next_index(s, '\n', 0);
    }
}

fn strip_labels(s: &[char]) -> (r: Vec<char>)
    ensures
        r@ == without_labels(s@),
{
    let labels: [&str; 8] = [
        "final article:",
        "article:",
        "draft:",
        "markdown:",
        "output:",
        "本文:",
        "最終記事:",
        "ドラフト:",
    ];
    assert(crate::text::strs(labels@) =~= article_labels());
    let mut out = copy_chars(s);
    loop
        invariant
            crate::text::strs(labels@) == article_labels(),
            without_labels(s@) == without_labels(out@),
        decreases out@.len(),
    {
        let line = head_line(out.as_slice());
        proof {
            lemma_first_line_len(out@);
        }
        let low = to_lower(trim(line.as_slice()));
        if line.len() == 0 || !is_one_of(low.as_slice(), &labels) {
            return out;
        }
        let len: usize = out.len();
        let rest = slice_subrange(out.as_slice(), line.len(), len);
        assert(rest@ =~= out@.skip(line@.len() as int));
        let next = copy_chars(trim_start(rest));
        proof {
            lemma_trimmed_start_len(rest@);
        }
        out = next;
    }
}

/// The article in a model's reply: without preamble, code fence and labels.
pub fn clean_draft_llm_output(text: &str) -> (r: String)
    ensures
        r@ == article_of(text@),
{
    let plain = chars_of(strip_llm_preamble(text).as_str());
    let s = trim(plain.as_slice());
    let mut cleaned = copy_chars(s);
    if starts_with(s, "```") {
        proof {
            reveal_strlit("```");
        }
        let e = index_of(s, '\n', 0);
        if e < s.len() {
            let rest = slice_subrange(s, e + 1, s.len());
            assert(rest@ =~= s@.skip(e + 1));
            cleaned = copy_chars(trim(rest));
        }
        if ends_with(cleaned.as_slice(), "```") {
            let len: usize = cleaned.len();
            let head = slice_subrange(cleaned.as_slice(), 0, len - 3);
            assert(head@ =~= cleaned@.take(cleaned@.len() - 3));
            cleaned = copy_chars(trim_end(head));
        }
    }
    let out = strip_labels(cleaned.as_slice());
    text_of(trim(out.as_slice()))
}

/// What the prompts for a draft say and an article does not, in small letters.
pub open spec fn prompt_markers() -> Seq<Seq<char>> {
    seq![
        "input notes:"@,
        "source notes start"@,
        "source notes end"@,
        "requirements:"@,
        "rules:"@,
        "additional instruction:"@,
        "output only the markdown body"@,
        "return only the finished article"@,
        "do not repeat the task"@,
        "do not add information"@,
        "merge duplicate content"@,
        "respect the note order"@,
    ]
}

/// Whether a line is the label of a source note.
pub open spec fn is_source_label(line: Seq<char>) -> bool {
    let t = crate::text::trimmed_start(line);
    crate::text::begins(t, "### ["@) || crate::text::begins(t, "## ["@)
}

/// How many lines of `list` are labels of source notes.
pub open spec fn source_labels(list: Seq<Seq<char>>) -> nat
    decreases list.len(),
{
    if list.len() == 0 {
        0
    } else {
        source_labels(list.drop_last()) + if is_source_label(list.last()) {
            1nat
        } else {
            0nat
        }
    }
}

/// Whether a reply repeats the prompt instead of giving an article.
pub open spec fn echoes_prompt(s: Seq<char>) -> bool {
    let t = crate::text::trimmed(s);
    let low = crate::text::lowered(t);
    let markers = crate::text::count_present(low, prompt_markers());
    let labels = source_labels(crate::text::lines_of(t));
    &&& t.len() > 0
    &&& {
        ||| crate::text::begins(low, "reconstruct the following notes"@)
        ||| crate::text::begins(low, "create the final markdown article"@)
        ||| markers >= 2
        ||| labels >= 2
        ||| labels >= 1 && markers >= 1
    }
}

fn count_source_labels(s: &[char]) -> (r: usize)
    ensures
        r == source_labels(crate::text::lines_of(s@)),
{
    let list = lines(s);
    let ghost all = crate::text::rows(list@);
    let mut n: usize = 0;
    let mut i: usize = 0;
    while i < list.len()
        invariant
            i <= list.len(),
            n <= i,
            all == crate::text::rows(list@),
            n == source_labels(all.take(i as int)),
        decreases list.len() - i,
    {
        assert(all.take(i + 1).drop_last() =~= all.take(i as int));
        assert(all.take(i + 1).last() == list@[i as int]@);
        let line = trim_start(list[i].as_slice());
        if starts_with(line, "### [") || starts_with(line, "## [") {
            n = n + 1;
        }
        i = i + 1;
    }
    assert(all.take(all.len() as int) =~= all);
    n
}

/// Whether a model has repeated its prompt instead of writing the article.
pub fn draft_output_looks_like_prompt_echo(text: &str) -> (r: bool)
    ensures
        r == echoes_prompt(text@),
{
    let all = chars_of(text);
    let t = trim(all.as_slice());
    if t.len() == 0 {
        return false;
    }
    let low = to_lower(t);
    if starts_with(low.as_slice(), "reconstruct the following notes") || starts_with(
        low.as_slice(),
        "create the final markdown article",
    ) {
        return true;
    }
    let markers: [&str; 12] = [
        "input notes:",
        "source notes start",
        "source notes end",
        "requirements:",
        "rules:",
        "additional instruction:",
        "output only the markdown body",
        "return only the finished article",
        "do not repeat the task",
        "do not add information",
        "merge duplicate content",
        "respect the note order",
    ];
    assert(crate::text::strs(markers@) =~= prompt_markers());
    let marker_count = count_markers(low.as_slice(), &markers);
    if marker_count >= 2 {
        return true;
    }
    let label_count = count_source_labels(t);
    label_count >= 2 || (label_count >= 1 && marker_count >= 1)
}

// ---------------------------------------------------------------------------
// Composing
// ---------------------------------------------------------------------------

/// The titles and texts of a list of notes.
pub open spec fn note_pairs(notes: Seq<(String, String)>) -> Seq<(Seq<char>, Seq<char>)> {
    notes.map_values(|n: (String, String)| (n.0@, n.1@))
}

/// A note as a section of a document.
pub open spec fn section(note: (Seq<char>, Seq<char>)) -> Seq<char> {
    let title = if crate::text::blank(note.0) {
        "Note"@
    } else {
        crate::text::trimmed(note.0)
    };
    "## "@ + title + "\n\n"@ + crate::text::trimmed(note.1)
}

/// The notes as sections of one document.
pub open spec fn sections(notes: Seq<(Seq<char>, Seq<char>)>) -> Seq<Seq<char>> {
    Seq::new(notes.len(), |i: int| section(notes[i]))
}

/// The notes one after the other.
pub open spec fn concatenated(notes: Seq<(Seq<char>, Seq<char>)>) -> Seq<char> {
    crate::text::joined(sections(notes), "\n\n---\n\n"@)
}

/// The `i`th note as a source for the model.
pub open spec fn source_entry(notes: Seq<(Seq<char>, Seq<char>)>, i: int) -> Seq<char> {
    let number = crate::text::decimal((i + 1) as nat);
    let title = if crate::text::blank(notes[i].0) {
        "Note "@ + number
    } else {
        crate::text::trimmed(notes[i].0)
    };
    "### ["@ + number + "] "@ + title + "\n"@ + crate::text::trimmed(notes[i].1)
}

/// The notes as sources for the model.
pub open spec fn source_bodies(notes: Seq<(Seq<char>, Seq<char>)>) -> Seq<char> {
    crate::text::joined(Seq::new(notes.len(), |i: int| source_entry(notes, i)), "\n\n"@)
}

/// The user's instruction as a rule of the prompt.
pub open spec fn instruction_rule(own: Option<Seq<char>>) -> Seq<char> {
    match crate::text::filled(own) {
        Some(t) => "\n- Additional instruction: "@ + t,
        None => Seq::empty(),
    }
}

/// The first question for a draft.
pub open spec fn first_question(
    notes: Seq<(Seq<char>, Seq<char>)>,
    instruction: Option<Seq<char>>,
    template: Option<Seq<char>>,
) -> crate::chat::PlanView {
    crate::chat::plan_of(
        crate::chat::with_context(
            "You are an editor who turns multiple notes into one coherent article. Output only the Markdown body."@,
            None,
            draft_prompt(
                template,
                source_bodies(notes),
                instruction,
                instruction_rule(instruction),
            ),
        ),
        2,
        2048,
    )
}

/// The question that is put where the first was answered with its own prompt.
pub open spec fn second_question(
    notes: Seq<(Seq<char>, Seq<char>)>,
    instruction: Option<Seq<char>>,
) -> crate::chat::PlanView {
    crate::chat::plan_of(
        crate::chat::with_context(
            "You write final articles from source notes. The next answer must be only the final article body, never the prompt or source labels."@,
            None,
            "Create the final Markdown article from the source notes below.\n\nRequirements:\n- Return only the finished article body.\n- Do not repeat the task, requirements, source labels, or source notes.\n- Keep the same language as the source notes.\n- Merge overlapping ideas and preserve only facts present in the source.\n- Use clear Markdown headings and paragraphs."@
                + instruction_rule(instruction) + "\n\nSOURCE NOTES START\n"@ + source_bodies(notes)
                + "\nSOURCE NOTES END\n\nFINAL ARTICLE:"@,
        ),
        2,
        2048,
    )
}

/// What comes next for a draft.
pub enum DraftStep {
    /// The draft is done.
    Finished(String),
    /// The model is to be asked.
    Ask(ChatPlan),
    /// No draft can be made.
    Failed(AppError),
}

/// The model of a [`DraftStep`].
pub enum DraftStepView {
    Finished(Seq<char>),
    Ask(crate::chat::PlanView),
    Failed(crate::chat::ErrorView),
}

impl View for DraftStep {
    type V = DraftStepView;

    open spec fn view(&self) -> DraftStepView {
        match self {
            DraftStep::Finished(t) => DraftStepView::Finished(t@),
            DraftStep::Ask(p) => DraftStepView::Ask(p@),
            DraftStep::Failed(e) => DraftStepView::Failed(e@),
        }
    }
}

/// How a draft begins.
pub open spec fn draft_begins(
    notes: Seq<(Seq<char>, Seq<char>)>,
    mode: Seq<char>,
    instruction: Option<Seq<char>>,
    template: Option<Seq<char>>,
) -> DraftStepView {
    if notes.len() == 0 {
        DraftStepView::Failed(crate::chat::bad("合成対象のノートがありません"@))
    } else if mode == "concat"@ {
        DraftStepView::Finished(concatenated(notes))
    } else {
        DraftStepView::Ask(first_question(notes, instruction, template))
    }
}

/// How a draft goes on after the first reply.
pub open spec fn draft_continues(
    notes: Seq<(Seq<char>, Seq<char>)>,
    instruction: Option<Seq<char>>,
    reply: Seq<char>,
) -> DraftStepView {
    let article = article_of(reply);
    if article.len() == 0 {
        DraftStepView::Failed(crate::chat::broken("合成結果が空でした"@))
    } else if echoes_prompt(article) {
        DraftStepView::Ask(second_question(notes, instruction))
    } else {
        DraftStepView::Finished(article)
    }
}

/// How a draft ends after the second reply.
pub open spec fn draft_ends(reply: Seq<char>) -> DraftStepView {
    let article = article_of(reply);
    if article.len() == 0 {
        DraftStepView::Failed(crate::chat::broken("合成結果が空でした"@))
    } else if echoes_prompt(article) {
        DraftStepView::Failed(
            crate::chat::broken(
                "LLMが再構成結果ではなくプロンプトを返しました。入力を短くするか、追加指示を簡潔にして再実行してください。"@,
            ),
        )
    } else {
        DraftStepView::Finished(article)
    }
}

fn concat_notes(notes: &Vec<(String, String)>) -> (r: String)
    ensures
        r@ == concatenated(note_pairs(notes@)),
{
    let ghost pairs = note_pairs(notes@);
    let mut list: Vec<String> = Vec::new();
    let mut i: usize = 0;
    while i < notes.len()
        invariant
            i <= notes.len(),
            list@.len() == i,
            pairs == note_pairs(notes@),
            forall|j: int| 0 <= j < i ==> (#[trigger] list@[j])@ == section(pairs[j]),
        decreases notes.len() - i,
    {
        let title = trim_text(notes[i].0.as_str());
        let body = trim_text(notes[i].1.as_str());
        let mut entry = "## ".to_owned();
        if title.as_str().is_empty() {
            entry.append("Note");
        } else {
            entry.append(title.as_str());
        }
        entry.append("\n\n");
        entry.append(body.as_str());
        assert(pairs[i as int] == (notes@[i as int].0@, notes@[i as int].1@));
        list.push(entry);
        i = i + 1;
    }
    assert(crate::text::texts(list@) =~= sections(pairs));
    join(&list, "\n\n---\n\n")
}

fn source_text(notes: &Vec<(String, String)>) -> (r: String)
    ensures
        r@ == source_bodies(note_pairs(notes@)),
{
    let ghost pairs = note_pairs(notes@);
    let mut list: Vec<String> = Vec::new();
    let mut i: usize = 0;
    while i < notes.len()
        invariant
            i <= notes.len(),
            list@.len() == i,
            pairs == note_pairs(notes@),
            forall|j: int| 0 <= j < i ==> (#[trigger] list@[j])@ == source_entry(pairs, j),
        decreases notes.len() - i,
    {
        let number = to_decimal(i as u64 + 1);
        let mut title = trim_text(notes[i].0.as_str());
        if title.as_str().is_empty() {
            title = "Note ".to_owned();
            title.append(number.as_str());
        }
        let body = trim_text(notes[i].1.as_str());
        let mut entry = "### [".to_owned();
        entry.append(number.as_str());
        entry.append("] ");
        entry.append(title.as_str());
        entry.append("\n");
        entry.append(body.as_str());
        assert(pairs[i as int] == (notes@[i as int].0@, notes@[i as int].1@));
        list.push(entry);
        i = i + 1;
    }
    assert(crate::text::texts(list@) =~= Seq::new(
        pairs.len(),
        |i: int| source_entry(pairs, i),
    ));
    join(&list, "\n\n")
}

fn rule_of_instruction(instruction: Option<&str>) -> (r: String)
    ensures
        r@ == instruction_rule(crate::text::opt_str_view(instruction)),
{
    match fill(instruction) {
        Some(t) => {
            let mut rule = "\n- Additional instruction: ".to_owned();
            rule.append(t.as_str());
            rule
        },
        None => {
            let rule = String::new();
            assert(rule@ =~= Seq::empty());
            rule
        },
    }
}

/// Begins a draft of `notes`, given as titles and texts in the wanted order. With the mode
/// `concat` they are put one after the other, each under its title; with any other the model is
/// asked to make one article of them.
pub fn compose_draft(
    notes: &Vec<(String, String)>,
    mode: &str,
    instruction: Option<&str>,
    prompt_template: Option<&str>,
) -> (r: DraftStep)
    ensures
        r@ == draft_begins(
            note_pairs(notes@),
            mode@,
            crate::text::opt_str_view(instruction),
            crate::text::opt_str_view(prompt_template),
        ),
{
    if notes.len() == 0 {
        return DraftStep::Failed(AppError::bad_request("合成対象のノートがありません"));
    }
    if same(mode, "concat") {
        return DraftStep::Finished(concat_notes(notes));
    }
    let bodies = source_text(notes);
    let rule = rule_of_instruction(instruction);
    let prompt = build_draft_prompt(
        prompt_template,
        bodies.as_str(),
        instruction,
        rule.as_str(),
    );
    DraftStep::Ask(
        plan_question(
            "You are an editor who turns multiple notes into one coherent article. Output only the Markdown body.",
            None,
            prompt,
            2,
            2048,
        ),
    )
}

/// Goes on with a draft after the model's first reply: an article ends it, the prompt repeated
/// gives a second question.
pub fn compose_draft_reply(
    notes: &Vec<(String, String)>,
    instruction: Option<&str>,
    reply: &str,
) -> (r: DraftStep)
    ensures
        r@ == draft_continues(
            note_pairs(notes@),
            crate::text::opt_str_view(instruction),
            reply@,
        ),
{
    let cleaned = clean_draft_llm_output(trim_text(reply).as_str());
    proof {
        law_article_ignores_trimming(reply@);
    }
    if cleaned.as_str().is_empty() {
        return DraftStep::Failed(AppError::internal("合成結果が空でした"));
    }
    if !draft_output_looks_like_prompt_echo(cleaned.as_str()) {
        return DraftStep::Finished(cleaned);
    }
    let bodies = source_text(notes);
    let rule = rule_of_instruction(instruction);
    let mut prompt = "Create the final Markdown article from the source notes below.\n\nRequirements:\n- Return only the finished article body.\n- Do not repeat the task, requirements, source labels, or source notes.\n- Keep the same language as the source notes.\n- Merge overlapping ideas and preserve only facts present in the source.\n- Use clear Markdown headings and paragraphs.".to_owned();
    prompt.append(rule.as_str());
    prompt.append("\n\nSOURCE NOTES START\n");
    prompt.append(bodies.as_str());
    prompt.append("\nSOURCE NOTES END\n\nFINAL ARTICLE:");
    DraftStep::Ask(
        plan_question(
            "You write final articles from source notes. The next answer must be only the final article body, never the prompt or source labels.",
            None,
            prompt,
            2,
            2048,
        ),
    )
}

/// Ends a draft after the model's reply to the second question.
pub fn compose_draft_retry_reply(reply: &str) -> (r: DraftStep)
    ensures
        r@ == draft_ends(reply@),
{
    let cleaned = clean_draft_llm_output(reply);
    if cleaned.as_str().is_empty() {
        return DraftStep::Failed(AppError::internal("合成結果が空でした"));
    }
    if draft_output_looks_like_prompt_echo(cleaned.as_str()) {
        return DraftStep::Failed(
            AppError::internal(
                "LLMが再構成結果ではなくプロンプトを返しました。入力を短くするか、追加指示を簡潔にして再実行してください。",
            ),
        );
    }
    DraftStep::Finished(cleaned)
}

/// A reply and the reply trimmed hold the same article.
pub proof fn law_article_ignores_trimming(reply: Seq<char>)
    ensures
        article_of(crate::text::trimmed(reply)) == article_of(reply),
{
    crate::reply::law_answer_ignores_trimming(reply);
}

/// What becomes of a draft that a model is to write, given its reply to the first question and to
/// the second, and whether it is asked a second time.
pub open spec fn drafted(
    notes: Seq<(Seq<char>, Seq<char>)>,
    mode: Seq<char>,
    instruction: Option<Seq<char>>,
    template: Option<Seq<char>>,
    first_reply: Seq<char>,
    second_reply: Seq<char>,
) -> (DraftStepView, bool) {
    match draft_begins(notes, mode, instruction, template) {
        DraftStepView::Ask(_) => match draft_continues(notes, instruction, first_reply) {
            DraftStepView::Ask(_) => (draft_ends(second_reply), true),
            other => (other, false),
        },
        other => (other, false),
    }
}

/// A draft without notes is refused. Else the article in the first reply is the draft, if it is not
/// empty and does not repeat the prompt. Where it repeats the prompt the model is asked once more,
/// and the article in the second reply is the draft on the same terms. No other draft is made: none
/// is ever empty or the prompt repeated.
pub proof fn law_draft_is_an_article(
    notes: Seq<(Seq<char>, Seq<char>)>,
    mode: Seq<char>,
    instruction: Option<Seq<char>>,
    template: Option<Seq<char>>,
    first_reply: Seq<char>,
    second_reply: Seq<char>,
)
    requires
        mode != "concat"@,
    ensures
        ({
            let (end, again) = drafted(
                notes,
                mode,
                instruction,
                template,
                first_reply,
                second_reply,
            );
            let first = article_of(first_reply);
            let second = article_of(second_reply);
            &&& notes.len() == 0 ==> !again && (end matches DraftStepView::Failed(e) && e.status
                == 400)
            &&& again == (notes.len() > 0 && first.len() > 0 && echoes_prompt(first))
            &&& notes.len() > 0 && first.len() > 0 && !echoes_prompt(first) ==> end
                == DraftStepView::Finished(first)
            &&& again && second.len() > 0 && !echoes_prompt(second) ==> end
                == DraftStepView::Finished(second)
            &&& end is Finished ==> notes.len() > 0 && first.len() > 0 && (echoes_prompt(first)
                ==> second.len() > 0 && !echoes_prompt(second))
            &&& end is Finished || end is Failed
            &&& end matches DraftStepView::Finished(t) ==> t.len() > 0 && !echoes_prompt(t)
        }),
{
}

/// In a concatenated draft stands the text of every note, and a title of its own for every note
/// that has one.
pub proof fn law_concat_keeps_every_note(notes: Seq<(Seq<char>, Seq<char>)>, i: int)
    requires
        0 <= i < notes.len(),
    ensures
        crate::text::has_text(concatenated(notes), crate::text::trimmed(notes[i].1)),
        crate::text::has_text(concatenated(notes), crate::text::trimmed(notes[i].0)),
{
    let list = sections(notes);
    crate::text::lemma_joined_has(list, "\n\n---\n\n"@, i);
    lemma_section_has(notes[i]);
    crate::text::lemma_part_of_part(concatenated(notes), list[i], crate::text::trimmed(notes[i].1));
    crate::text::lemma_part_of_part(concatenated(notes), list[i], crate::text::trimmed(notes[i].0));
}

/// In a section stand the title and the text of its note.
proof fn lemma_section_has(note: (Seq<char>, Seq<char>))
    ensures
        crate::text::has_text(section(note), crate::text::trimmed(note.1)),
        crate::text::has_text(section(note), crate::text::trimmed(note.0)),
{
    let own = crate::text::trimmed(note.0);
    if crate::text::blank(note.0) {
        crate::text::lemma_has_inner("## "@, "Note"@, "\n\n"@, crate::text::trimmed(note.1));
        assert(own.len() == 0);
        crate::text::lemma_has_empty(section(note), own);
    } else {
        crate::text::lemma_has_inner("## "@, own, "\n\n"@, crate::text::trimmed(note.1));
    }
}

/// A prompt made from a template without a place for the notes ends with them or with the
/// instruction after them: the notes are never lost.
pub proof fn law_prompt_has_the_notes(
    template: Seq<char>,
    bodies: Seq<char>,
    instruction: Seq<char>,
)
    requires
        !crate::text::has_text(template, "{notes}"@),
        !crate::text::has_text(template, "{input_notes}"@),
    ensures
        crate::text::has_text(prompt_tail(template, bodies, instruction), bodies),
{
    crate::text::lemma_has_self(bodies);
    let tail = prompt_tail(template, bodies, instruction);
    let orders = tail.skip(("\n\nInput notes:\n"@ + bodies).len() as int);
    crate::text::lemma_has_part("\n\nInput notes:\n"@, bodies, orders, bodies);
    assert("\n\nInput notes:\n"@ + bodies + orders =~= tail);
}

// ---------------------------------------------------------------------------
// What reaches the model, and what is kept of the notes
// ---------------------------------------------------------------------------

/// The notes reach the model one after the other: each under a heading with its number and its title,
/// or the number alone where it has no title, and with its own text below it.
pub proof fn law_sources_hold_every_note(notes: Seq<(Seq<char>, Seq<char>)>, i: int)
    requires
        0 <= i < notes.len(),
    ensures
        crate::text::has_text(source_bodies(notes), crate::text::trimmed(notes[i].1)),
        !crate::text::blank(notes[i].0) ==> crate::text::has_text(
            source_bodies(notes),
            "### ["@ + crate::text::decimal((i + 1) as nat) + "] "@ + crate::text::trimmed(notes[i].0)
                + "\n"@ + crate::text::trimmed(notes[i].1),
        ),
        crate::text::blank(notes[i].0) ==> crate::text::has_text(
            source_bodies(notes),
            "### ["@ + crate::text::decimal((i + 1) as nat) + "] "@ + ("Note "@
                + crate::text::decimal((i + 1) as nat)) + "\n"@ + crate::text::trimmed(notes[i].1),
        ),
        i + 1 < notes.len() ==> crate::text::has_text(
            source_bodies(notes),
            "\n"@ + crate::text::trimmed(notes[i].1) + "\n\n"@ + ("### ["@ + crate::text::decimal(
                (i + 2) as nat,
            ) + "] "@),
        ),
{
    let list = Seq::new(notes.len(), |i: int| source_entry(notes, i));
    let whole = source_bodies(notes);
    let text = crate::text::trimmed(notes[i].1);
    let head = source_heading(notes, i);
    crate::text::lemma_joined_has(list, "\n\n"@, i);
    assert(list[i] == head + "\n"@ + text);
    crate::text::lemma_part_at_end(whole, head + "\n"@, text);
    if i + 1 < notes.len() {
        crate::text::lemma_joined_neighbours(list, "\n\n"@, i);
        lemma_source_after(notes, i + 1);
        let open = "### ["@ + crate::text::decimal((i + 2) as nat) + "] "@;
        let rest = source_rest(notes, i + 1);
        assert(head + ("\n"@ + text) =~= list[i]);
        crate::text::lemma_part_between(whole, head, "\n"@ + text, "\n\n"@, open, rest);
    }
}

/// The heading of the `i`th note among the sources.
spec fn source_heading(notes: Seq<(Seq<char>, Seq<char>)>, i: int) -> Seq<char> {
    let number = crate::text::decimal((i + 1) as nat);
    let title = if crate::text::blank(notes[i].0) {
        "Note "@ + number
    } else {
        crate::text::trimmed(notes[i].0)
    };
    "### ["@ + number + "] "@ + title
}

/// The `i`th note among the sources, after its number.
spec fn source_rest(notes: Seq<(Seq<char>, Seq<char>)>, i: int) -> Seq<char> {
    let number = crate::text::decimal((i + 1) as nat);
    let title = if crate::text::blank(notes[i].0) {
        "Note "@ + number
    } else {
        crate::text::trimmed(notes[i].0)
    };
    title + "\n"@ + crate::text::trimmed(notes[i].1)
}

proof fn lemma_source_after(notes: Seq<(Seq<char>, Seq<char>)>, i: int)
    ensures
        source_entry(notes, i) == ("### ["@ + crate::text::decimal((i + 1) as nat) + "] "@)
            + source_rest(notes, i),
{
    assert(source_entry(notes, i) =~= ("### ["@ + crate::text::decimal((i + 1) as nat) + "] "@)
        + source_rest(notes, i));
}

/// The places of a template for what is filled in after the notes.
proof fn lemma_places(first: char)
    requires
        first == '#' || first == '\n',
    ensures
        "{notes}"@.len() > 0,
        "{input_notes}"@.len() > 0,
        "{instruction}"@.len() > 0,
        "{additional_instruction}"@.len() > 0,
        forall|d: int| 0 < d < "{input_notes}"@.len() ==> #[trigger] "{input_notes}"@[d] != first,
        forall|d: int| 0 < d < "{instruction}"@.len() ==> #[trigger] "{instruction}"@[d] != first,
        forall|d: int|
            0 < d < "{additional_instruction}"@.len() ==> #[trigger] "{additional_instruction}"@[d]
                != first,
{
    reveal_strlit("{notes}");
    reveal_strlit("{input_notes}");
    reveal_strlit("{instruction}");
    reveal_strlit("{additional_instruction}");
}

/// A part of the notes stands in the prompt, where none of the places of a template begins in it.
proof fn lemma_prompt_has_part(
    own_template: Option<Seq<char>>,
    bodies: Seq<char>,
    own_instruction: Option<Seq<char>>,
    block: Seq<char>,
    part: Seq<char>,
)
    requires
        crate::text::has_text(bodies, part),
        part.len() > 0,
        part[0] == '#' || part[0] == '\n',
        crate::text::is_clear_of(part, "{input_notes}"@),
        crate::text::is_clear_of(part, "{instruction}"@),
        crate::text::is_clear_of(part, "{additional_instruction}"@),
    ensures
        ({
            let template = template_of(own_template);
            let instruction = instruction_of(own_instruction);
            crate::text::has_text(
                filled_template(template, bodies, instruction, block) + prompt_tail(
                    template,
                    bodies,
                    instruction,
                ),
                part,
            )
        }),
{
    let template = template_of(own_template);
    let instruction = instruction_of(own_instruction);
    let filled = filled_template(template, bodies, instruction, block);
    let tail = prompt_tail(template, bodies, instruction);
    let none = Seq::<char>::empty();
    lemma_places(part[0]);
    let a = crate::text::replaced(template, "{notes}"@, bodies);
    let b = crate::text::replaced(a, "{input_notes}"@, bodies);
    let c = crate::text::replaced(b, "{instruction}"@, crate::text::trimmed(block));
    let t1 = crate::text::has_text(template, "{notes}"@);
    let t2 = crate::text::has_text(template, "{input_notes}"@);
    if t1 || t2 {
        if t1 {
            crate::text::lemma_replaced_has(template, "{notes}"@, bodies);
            crate::text::lemma_part_of_part(a, bodies, part);
            crate::text::lemma_replaced_keeps(a, part, "{input_notes}"@, bodies);
        } else {
            crate::text::lemma_replaced_none(template, "{notes}"@, bodies);
            crate::text::lemma_replaced_has(template, "{input_notes}"@, bodies);
            crate::text::lemma_part_of_part(b, bodies, part);
        }
        crate::text::lemma_replaced_keeps(b, part, "{instruction}"@, crate::text::trimmed(block));
        crate::text::lemma_replaced_keeps(c, part, "{additional_instruction}"@, instruction);
        crate::text::lemma_has_part(none, filled, tail, part);
        assert(none + filled + tail =~= filled + tail);
    } else {
        law_prompt_has_the_notes(template, bodies, instruction);
        crate::text::lemma_part_of_part(tail, bodies, part);
        crate::text::lemma_has_part(filled, tail, none, part);
        assert(filled + tail + none =~= filled + tail);
    }
}

/// The text of every note reaches the model in the first question, whatever the template, in a
/// message of the user. Only a text in which a place of a template begins can be changed by what is
/// filled in there.
pub proof fn law_first_question_holds_every_note(
    notes: Seq<(Seq<char>, Seq<char>)>,
    instruction: Option<Seq<char>>,
    template: Option<Seq<char>>,
    i: int,
)
    requires
        0 <= i < notes.len(),
        crate::text::is_clear_of(crate::text::trimmed(notes[i].1), "{input_notes}"@),
        crate::text::is_clear_of(crate::text::trimmed(notes[i].1), "{instruction}"@),
        crate::text::is_clear_of(crate::text::trimmed(notes[i].1), "{additional_instruction}"@),
    ensures
        ({
            let plan = first_question(notes, instruction, template);
            let q = plan.messages.last();
            &&& q.role == crate::chat::Role::User
            &&& crate::text::has_text(q.content, crate::text::trimmed(notes[i].1))
            &&& plan.temperature_tenths == 2
            &&& plan.max_tokens == 2048
        }),
{
    let text = crate::text::trimmed(notes[i].1);
    let prompt = first_question(notes, instruction, template).messages.last().content;
    if text.len() == 0 {
        crate::text::lemma_has_empty(prompt, text);
    } else {
        let bodies = source_bodies(notes);
        let part = "\n"@ + text;
        lemma_text_below_heading(notes, i);
        assert(part[0] == '\n') by {
            reveal_strlit("\n");
        }
        lemma_clear_below_line(text, "{input_notes}"@);
        lemma_clear_below_line(text, "{instruction}"@);
        lemma_clear_below_line(text, "{additional_instruction}"@);
        let rule = instruction_rule(instruction);
        lemma_prompt_has_part(template, bodies, instruction, rule, part);
        let own = template_of(template);
        let orders = instruction_of(instruction);
        let raw = filled_template(own, bodies, orders, rule) + prompt_tail(own, bodies, orders);
        crate::text::lemma_part_at_end(raw, "\n"@, text);
        crate::text::lemma_trimmed_is_solid(notes[i].1);
        crate::text::lemma_solid_stays(raw, text);
    }
}

/// The text of a note stands on a line of its own among the sources.
proof fn lemma_text_below_heading(notes: Seq<(Seq<char>, Seq<char>)>, i: int)
    requires
        0 <= i < notes.len(),
    ensures
        crate::text::has_text(source_bodies(notes), "\n"@ + crate::text::trimmed(notes[i].1)),
{
    let list = Seq::new(notes.len(), |i: int| source_entry(notes, i));
    let head = source_heading(notes, i);
    let part = "\n"@ + crate::text::trimmed(notes[i].1);
    crate::text::lemma_joined_has(list, "\n\n"@, i);
    assert(head + part =~= list[i]);
    crate::text::lemma_part_at_end(source_bodies(notes), head, part);
}

/// A text with a line end before it is clear of what the text is clear of.
proof fn lemma_clear_below_line(text: Seq<char>, pat: Seq<char>)
    requires
        crate::text::is_clear_of(text, pat),
        pat == "{input_notes}"@ || pat == "{instruction}"@ || pat == "{additional_instruction}"@,
    ensures
        crate::text::is_clear_of("\n"@ + text, pat),
{
    reveal_strlit("\n");
    reveal_strlit("{input_notes}");
    reveal_strlit("{instruction}");
    reveal_strlit("{additional_instruction}");
    let s = "\n"@ + text;
    assert forall|k: int| 0 <= k < s.len() implies #[trigger] crate::text::differs_from(
        s,
        k,
        pat,
    ) by {
        if k == 0 {
            assert(s[0] == '\n');
            assert(s[k] != pat[0] && k + 0 == k);
        } else {
            assert(crate::text::differs_from(text, k - 1, pat));
            let d = choose|d: int|
                0 <= d < pat.len() && k - 1 + d < text.len() && text[k - 1 + d] != #[trigger] pat[d];
            assert(s[k + d] == text[k - 1 + d]);
        }
    }
}

/// The notes with their headings reach the model in the second question as they stand, and so does
/// the wish of the user.
pub proof fn law_second_question_holds_every_note(
    notes: Seq<(Seq<char>, Seq<char>)>,
    instruction: Option<Seq<char>>,
    i: int,
)
    requires
        0 <= i < notes.len(),
    ensures
        ({
            let plan = second_question(notes, instruction);
            let q = plan.messages.last();
            &&& q.role == crate::chat::Role::User
            &&& crate::text::has_text(q.content, crate::text::trimmed(notes[i].1))
            &&& crate::text::has_text(q.content, source_bodies(notes))
            &&& (instruction matches Some(t) && !crate::text::blank(t)) ==> crate::text::has_text(
                q.content,
                "Additional instruction: "@ + crate::text::trimmed(instruction->0),
            )
            &&& plan.temperature_tenths == 2
            &&& plan.max_tokens == 2048
        }),
{
    let bodies = source_bodies(notes);
    let a = "Create the final Markdown article from the source notes below.\n\nRequirements:\n- Return only the finished article body.\n- Do not repeat the task, requirements, source labels, or source notes.\n- Keep the same language as the source notes.\n- Merge overlapping ideas and preserve only facts present in the source.\n- Use clear Markdown headings and paragraphs."@;
    let rule = instruction_rule(instruction);
    let gap = "\n\nSOURCE NOTES START\n"@;
    let end = "\nSOURCE NOTES END\n\nFINAL ARTICLE:"@;
    let whole = a + rule + gap + bodies + end;
    crate::text::lemma_has_self(bodies);
    crate::text::lemma_has_part(a + rule + gap, bodies, end, bodies);
    law_sources_hold_every_note(notes, i);
    crate::text::lemma_part_of_part(whole, bodies, crate::text::trimmed(notes[i].1));
    if instruction is Some && !crate::text::blank(instruction->0) {
        let t = crate::text::trimmed(instruction->0);
        let lead = "\n- Additional instruction: "@;
        let none = Seq::<char>::empty();
        reveal_strlit("\n- Additional instruction: ");
        reveal_strlit("Additional instruction: ");
        assert(lead.subrange(3, lead.len() as int) =~= "Additional instruction: "@);
        crate::text::lemma_ends_longer(a, lead, "Additional instruction: "@);
        let rest = gap + bodies + end;
        assert(rest.subrange(0, 0) =~= none);
        crate::text::lemma_has_across(a + lead, t, rest, "Additional instruction: "@, none);
        assert("Additional instruction: "@ + t + none =~= "Additional instruction: "@ + t);
        assert(a + lead + t + rest =~= whole);
    }
}

/// A concatenated draft has a section for each note, under its title and with its own text, in the
/// order of the notes and with a line between two of them.
pub proof fn law_concat_is_in_order(notes: Seq<(Seq<char>, Seq<char>)>, i: int)
    requires
        0 <= i < notes.len(),
    ensures
        !crate::text::blank(notes[i].0) ==> crate::text::has_text(
            concatenated(notes),
            "## "@ + crate::text::trimmed(notes[i].0) + "\n\n"@ + crate::text::trimmed(notes[i].1),
        ),
        i + 1 < notes.len() ==> crate::text::has_text(
            concatenated(notes),
            crate::text::trimmed(notes[i].1) + "\n\n---\n\n"@ + "## "@,
        ),
        i + 1 < notes.len() && !crate::text::blank(notes[i + 1].0) ==> crate::text::has_text(
            concatenated(notes),
            crate::text::trimmed(notes[i].1) + "\n\n---\n\n"@ + ("## "@ + crate::text::trimmed(
                notes[i + 1].0,
            )),
        ),
{
    let list = sections(notes);
    let whole = concatenated(notes);
    let sep = "\n\n---\n\n"@;
    crate::text::lemma_joined_has(list, sep, i);
    if i + 1 < notes.len() {
        crate::text::lemma_joined_neighbours(list, sep, i);
        let text = crate::text::trimmed(notes[i].1);
        let title = if crate::text::blank(notes[i].0) {
            "Note"@
        } else {
            crate::text::trimmed(notes[i].0)
        };
        let next = if crate::text::blank(notes[i + 1].0) {
            "Note"@
        } else {
            crate::text::trimmed(notes[i + 1].0)
        };
        let head = "## "@ + title + "\n\n"@;
        let tail = "\n\n"@ + crate::text::trimmed(notes[i + 1].1);
        lemma_section_after(next, crate::text::trimmed(notes[i + 1].1));
        assert(list[i] == head + text);
        assert(list[i + 1] == ("## "@ + next) + tail);
        crate::text::lemma_part_between(whole, head, text, sep, "## "@ + next, tail);
        assert(list[i + 1] == "## "@ + (next + tail));
        crate::text::lemma_part_between(whole, head, text, sep, "## "@, next + tail);
    }
}

proof fn lemma_section_after(title: Seq<char>, text: Seq<char>)
    ensures
        "## "@ + title + "\n\n"@ + text == ("## "@ + title) + ("\n\n"@ + text),
        "## "@ + title + "\n\n"@ + text == "## "@ + (title + ("\n\n"@ + text)),
{
    assert("## "@ + title + "\n\n"@ + text =~= ("## "@ + title) + ("\n\n"@ + text));
    assert("## "@ + title + "\n\n"@ + text =~= "## "@ + (title + ("\n\n"@ + text)));
}

/// A template of the user's own without places for anything begins the prompt as it stands.
pub proof fn law_own_template_begins_the_prompt(
    own: Seq<char>,
    bodies: Seq<char>,
    instruction: Option<Seq<char>>,
    block: Seq<char>,
)
    requires
        !crate::text::blank(own),
        !crate::text::trimmed(own).contains('{'),
    ensures
        crate::text::begins(
            draft_prompt(Some(own), bodies, instruction, block),
            crate::text::trimmed(own),
        ),
{
    let t = crate::text::trimmed(own);
    let orders = instruction_of(instruction);
    lemma_no_place(t, "{notes}"@);
    lemma_no_place(t, "{input_notes}"@);
    lemma_no_place(t, "{instruction}"@);
    lemma_no_place(t, "{additional_instruction}"@);
    lemma_places('#');
    crate::text::lemma_replaced_none(t, "{notes}"@, bodies);
    crate::text::lemma_replaced_none(t, "{input_notes}"@, bodies);
    crate::text::lemma_replaced_none(t, "{instruction}"@, crate::text::trimmed(block));
    crate::text::lemma_replaced_none(t, "{additional_instruction}"@, orders);
    let tail = prompt_tail(t, bodies, orders);
    assert((t + tail).subrange(0, t.len() as int) =~= t);
    crate::text::lemma_trimmed_is_solid(own);
    crate::text::lemma_begins_trimmed(t + tail, t);
}

proof fn lemma_no_place(t: Seq<char>, pat: Seq<char>)
    requires
        !t.contains('{'),
        pat == "{notes}"@ || pat == "{input_notes}"@ || pat == "{instruction}"@ || pat
            == "{additional_instruction}"@,
    ensures
        !crate::text::has_text(t, pat),
{
    reveal_strlit("{notes}");
    reveal_strlit("{input_notes}");
    reveal_strlit("{instruction}");
    reveal_strlit("{additional_instruction}");
    if crate::text::has_text(t, pat) {
        let i = choose|i: int| #[trigger] crate::text::occurs_at(t, pat, i);
        assert(t.subrange(i, i + pat.len())[0] == '{');
        assert(t.contains(t[i]));
    }
}

/// The wish of the user reaches the model: where the template has no place for it, it ends the
/// prompt.
pub proof fn law_wish_ends_the_prompt(
    template: Option<Seq<char>>,
    bodies: Seq<char>,
    wish: Seq<char>,
    block: Seq<char>,
)
    requires
        !crate::text::blank(wish),
        !crate::text::has_text(template_of(template), "{instruction}"@),
        !crate::text::has_text(template_of(template), "{additional_instruction}"@),
    ensures
        crate::text::ends(
            draft_prompt(template, bodies, Some(wish), block),
            crate::text::trimmed(wish),
        ),
{
    let t = crate::text::trimmed(wish);
    let own = template_of(template);
    let filled = filled_template(own, bodies, t, block);
    let tail = prompt_tail(own, bodies, t);
    assert(crate::text::ends(tail, t)) by {
        let lead = "\n\nAdditional instruction:\n"@;
        let notes = tail.take(tail.len() - (lead + t).len());
        assert(t.subrange(0, t.len() as int) =~= t);
        crate::text::lemma_ends_longer(notes + lead, t, t);
        assert(notes + lead + t =~= tail);
    }
    crate::text::lemma_ends_longer(filled, tail, t);
    crate::text::lemma_trimmed_is_solid(wish);
    crate::text::lemma_ends_trimmed(filled + tail, t);
}

/// The prompt for a draft that is used without one of the user's own has a place for the notes and
/// one for the wish of the user, and begins with what is wanted.
pub proof fn law_default_prompt_has_its_places()
    ensures
        template_of(None) == DEFAULT_DRAFT_PROMPT_TEMPLATE@,
        crate::text::has_text(DEFAULT_DRAFT_PROMPT_TEMPLATE@, "{notes}"@),
        crate::text::has_text(DEFAULT_DRAFT_PROMPT_TEMPLATE@, "{instruction}"@),
        crate::text::begins(
            DEFAULT_DRAFT_PROMPT_TEMPLATE@,
            "Reconstruct the following notes into one coherent document."@,
        ),
{
    let t = DEFAULT_DRAFT_PROMPT_TEMPLATE@;
    reveal_strlit("Reconstruct the following notes into one coherent document.\n\nRules:\n- Output in the same language as the input.\n- Merge duplicate content.\n- Use appropriate Markdown headings (#, ##), paragraphs, and bullet lists for readability.\n- Do not add information that is not present in the input.\n- Respect the note order while creating a natural flow.\n- Do not output a preface, explanation, or code fence.\n- Output only the Markdown body.\n{instruction}\n\nInput notes:\n{notes}");
    reveal_strlit("{notes}");
    reveal_strlit("{instruction}");
    reveal_strlit("Reconstruct the following notes into one coherent document.");
    let n = t.len() as int;
    assert(t.subrange(n - 7, n) =~= "{notes}"@);
    assert(crate::text::occurs_at(t, "{notes}"@, n - 7));
    assert(t.subrange(n - 35, n - 22) =~= "{instruction}"@);
    assert(crate::text::occurs_at(t, "{instruction}"@, n - 35));
    assert(t.subrange(0, 59) =~= "Reconstruct the following notes into one coherent document."@);
}

/// What a model writes is an article of its own unless it repeats the prompt: a text with two of the
/// things that only the prompts say, or that begins as a prompt does, repeats it. One with none of them
/// and without labels of source notes does not.
pub proof fn law_repeated_prompts_are_told(s: Seq<char>, a: Seq<char>, b: Seq<char>)
    requires
        a != b,
        a == "input notes:"@ || a == "source notes start"@ || a == "source notes end"@ || a
            == "requirements:"@ || a == "rules:"@ || a == "additional instruction:"@ || a
            == "output only the markdown body"@ || a == "return only the finished article"@ || a
            == "do not repeat the task"@ || a == "do not add information"@ || a
            == "merge duplicate content"@ || a == "respect the note order"@,
        b == "input notes:"@ || b == "source notes start"@ || b == "source notes end"@ || b
            == "requirements:"@ || b == "rules:"@ || b == "additional instruction:"@ || b
            == "output only the markdown body"@ || b == "return only the finished article"@ || b
            == "do not repeat the task"@ || b == "do not add information"@ || b
            == "merge duplicate content"@ || b == "respect the note order"@,
    ensures
        ({
            let low = crate::text::lowered(crate::text::trimmed(s));
            &&& crate::text::has_text(low, a) && crate::text::has_text(low, b) && low.len() > 0
                ==> echoes_prompt(s)
            &&& low.len() > 0 && (crate::text::begins(low, "reconstruct the following notes"@)
                || crate::text::begins(low, "create the final markdown article"@))
                ==> echoes_prompt(s)
        }),
{
    let low = crate::text::lowered(crate::text::trimmed(s));
    let list = prompt_markers();
    assert(list.len() == 12);
    assert(list[0] == "input notes:"@ && list[1] == "source notes start"@ && list[2]
        == "source notes end"@ && list[3] == "requirements:"@ && list[4] == "rules:"@ && list[5]
        == "additional instruction:"@);
    assert(list[6] == "output only the markdown body"@ && list[7]
        == "return only the finished article"@ && list[8] == "do not repeat the task"@ && list[9]
        == "do not add information"@ && list[10] == "merge duplicate content"@ && list[11]
        == "respect the note order"@);
    let i = choose|i: int| 0 <= i < list.len() && list[i] == a;
    let j = choose|j: int| 0 <= j < list.len() && list[j] == b;
    if crate::text::has_text(low, a) && crate::text::has_text(low, b) {
        if i < j {
            lemma_two_present(low, list, i, j);
        } else {
            lemma_two_present(low, list, j, i);
        }
    }
}

/// Where two of a list stand in a text, at least two are counted.
proof fn lemma_two_present(s: Seq<char>, list: Seq<Seq<char>>, i: int, j: int)
    requires
        0 <= i < j < list.len(),
        crate::text::has_text(s, list[i]),
        crate::text::has_text(s, list[j]),
    ensures
        crate::text::count_present(s, list) >= 2,
    decreases list.len(),
{
    let head = list.drop_last();
    if j == list.len() - 1 {
        lemma_one_present(s, head, i);
    } else {
        lemma_two_present(s, head, i, j);
    }
}

proof fn lemma_one_present(s: Seq<char>, list: Seq<Seq<char>>, i: int)
    requires
        0 <= i < list.len(),
        crate::text::has_text(s, list[i]),
    ensures
        crate::text::count_present(s, list) >= 1,
    decreases list.len(),
{
    if i < list.len() - 1 {
        lemma_one_present(s, list.drop_last(), i);
    }
}

/// A text that says nothing that only the prompts say, and has no line that is the label of a source
/// note, is no prompt repeated.
pub proof fn law_articles_are_no_prompts(s: Seq<char>)
    requires
        ({
            let low = crate::text::lowered(crate::text::trimmed(s));
            &&& !crate::text::has_text(low, "input notes:"@)
            &&& !crate::text::has_text(low, "source notes start"@)
            &&& !crate::text::has_text(low, "source notes end"@)
            &&& !crate::text::has_text(low, "requirements:"@)
            &&& !crate::text::has_text(low, "rules:"@)
            &&& !crate::text::has_text(low, "additional instruction:"@)
            &&& !crate::text::has_text(low, "output only the markdown body"@)
            &&& !crate::text::has_text(low, "return only the finished article"@)
            &&& !crate::text::has_text(low, "do not repeat the task"@)
            &&& !crate::text::has_text(low, "do not add information"@)
            &&& !crate::text::has_text(low, "merge duplicate content"@)
            &&& !crate::text::has_text(low, "respect the note order"@)
            &&& !crate::text::begins(low, "reconstruct the following notes"@)
            &&& !crate::text::begins(low, "create the final markdown article"@)
        }),
        !crate::text::trimmed(s).contains('['),
    ensures
        !echoes_prompt(s),
{
    let t = crate::text::trimmed(s);
    let low = crate::text::lowered(t);
    let list = prompt_markers();
    assert(list[0] == "input notes:"@ && list[1] == "source notes start"@ && list[2]
        == "source notes end"@ && list[3] == "requirements:"@ && list[4] == "rules:"@ && list[5]
        == "additional instruction:"@);
    assert(list[6] == "output only the markdown body"@ && list[7]
        == "return only the finished article"@ && list[8] == "do not repeat the task"@ && list[9]
        == "do not add information"@ && list[10] == "merge duplicate content"@ && list[11]
        == "respect the note order"@);
    assert forall|i: int| 0 <= i < list.len() implies !crate::text::has_text(
        low,
        #[trigger] list[i],
    ) by {}
    lemma_none_present(low, list);
    lemma_no_labels(t);
}

proof fn lemma_none_present(s: Seq<char>, list: Seq<Seq<char>>)
    requires
        forall|i: int| 0 <= i < list.len() ==> !crate::text::has_text(s, #[trigger] list[i]),
    ensures
        crate::text::count_present(s, list) == 0,
    decreases list.len(),
{
    if list.len() > 0 {
        let head = list.drop_last();
        assert forall|i: int| 0 <= i < head.len() implies !crate::text::has_text(
            s,
            #[trigger] head[i],
        ) by {
            assert(head[i] == list[i]);
        }
        lemma_none_present(s, head);
        assert(list[list.len() - 1] == list.last());
    }
}

/// A text without brackets has no labels of source notes.
proof fn lemma_no_labels(t: Seq<char>)
    requires
        !t.contains('['),
    ensures
        source_labels(crate::text::lines_of(t)) == 0,
{
    lemma_lines_hold(t, 0);
    let list = crate::text::lines_of(t);
    lemma_no_label_lines(list);
}

proof fn lemma_lines_hold(t: Seq<char>, i: int)
    requires
        0 <= i,
        !t.contains('['),
    ensures
        forall|k: int|
            0 <= k < crate::text::lines_from(t, i).len() ==> !(#[trigger] crate::text::lines_from(
                t,
                i,
            )[k]).contains('['),
    decreases t.len() - i,
{
    if i < t.len() {
        crate::text::lemma_next_index(t, '\n', i);
        let e = crate::text::next_index(t, '\n', i);
        let all = crate::text::lines_from(t, i);
        if e < t.len() && e >= i {
            lemma_lines_hold(t, e + 1);
        }
        assert forall|k: int| 0 <= k < all.len() implies !(#[trigger] all[k]).contains('[') by {
            if k > 0 {
                assert(all[k] == crate::text::lines_from(t, e + 1)[k - 1]);
            } else if all[k].contains('[') {
                let j = choose|j: int| 0 <= j < all[k].len() && all[k][j] == '[';
                assert(all[k][j] == t[i + j]);
                assert(t.contains(t[i + j]));
            }
        }
    }
}

proof fn lemma_no_label_lines(list: Seq<Seq<char>>)
    requires
        forall|k: int| 0 <= k < list.len() ==> !(#[trigger] list[k]).contains('['),
    ensures
        source_labels(list) == 0,
    decreases list.len(),
{
    if list.len() > 0 {
        let head = list.drop_last();
        assert forall|k: int| 0 <= k < head.len() implies !(#[trigger] head[k]).contains('[') by {
            assert(head[k] == list[k]);
        }
        lemma_no_label_lines(head);
        let line = list.last();
        assert(line == list[list.len() - 1]);
        let t = crate::text::trimmed_start(line);
        let n = crate::text::lemma_drop_leading(line, crate::text::white());
        reveal_strlit("### [");
        reveal_strlit("## [");
        if crate::text::begins(t, "### ["@) {
            assert(t.subrange(0, 5)[4] == t[4]);
            assert(t[4] == line[n + 4]);
            assert(line.contains(line[n + 4]));
        }
        if crate::text::begins(t, "## ["@) {
            assert(t.subrange(0, 4)[3] == t[3]);
            assert(t[3] == line[n + 3]);
            assert(line.contains(line[n + 3]));
        }
    }
}

/// A plain reply is the article: one without a fence, a label or anything else around it.
pub proof fn law_plain_reply_is_the_article(reply: Seq<char>)
    requires
        crate::reply::plain_answer(reply) == crate::text::trimmed(reply),
        !crate::text::begins(crate::text::trimmed(reply), "```"@),
        !article_labels().contains(
            crate::text::lowered(
                crate::text::trimmed(crate::reply::first_line(crate::text::trimmed(reply))),
            ),
        ),
    ensures
        article_of(reply) == crate::text::trimmed(reply),
{
    crate::text::lemma_trimmed_twice(reply);
}

/// The labels that are no part of an article.
pub proof fn law_labels_are_known(line: Seq<char>)
    ensures
        ({
            let w = crate::text::lowered(crate::text::trimmed(line));
            is_label_line(line) <==> (w == "final article:"@ || w == "article:"@ || w == "draft:"@
                || w == "markdown:"@ || w == "output:"@ || w == "本文:"@ || w == "最終記事:"@ || w
                == "ドラフト:"@)
        }),
{
    let w = crate::text::lowered(crate::text::trimmed(line));
    let list = article_labels();
    assert(list[0] == "final article:"@ && list[1] == "article:"@ && list[2] == "draft:"@ && list[3]
        == "markdown:"@ && list[4] == "output:"@ && list[5] == "本文:"@ && list[6] == "最終記事:"@
        && list[7] == "ドラフト:"@);
    if list.contains(w) {
        let i = choose|i: int| 0 <= i < list.len() && list[i] == w;
        assert(w == list[i]);
    }
}

/// A draft begins by putting the notes one after the other where that is asked for, and by asking the
/// model in any other mode; without notes it is refused.
pub proof fn law_mode_decides(
    notes: Seq<(Seq<char>, Seq<char>)>,
    mode: Seq<char>,
    instruction: Option<Seq<char>>,
    template: Option<Seq<char>>,
)
    ensures
        notes.len() == 0 ==> (draft_begins(notes, mode, instruction, template) matches DraftStepView::Failed(
            e,
        ) && e.status == 400),
        notes.len() > 0 && mode == "concat"@ ==> draft_begins(notes, mode, instruction, template)
            == DraftStepView::Finished(concatenated(notes)),
        notes.len() > 0 && mode != "concat"@ ==> draft_begins(notes, mode, instruction, template)
            == DraftStepView::Ask(first_question(notes, instruction, template)),
{
}

/// The model is told what it is for first, and is asked for a long and nearly plain answer.
pub proof fn law_editor_is_told_the_task(
    notes: Seq<(Seq<char>, Seq<char>)>,
    instruction: Option<Seq<char>>,
    template: Option<Seq<char>>,
)
    ensures
        ({
            let plan = first_question(notes, instruction, template);
            &&& plan.messages.len() == 2
            &&& plan.messages[0].role is System
            &&& plan.messages[0].content == "You are an editor who turns multiple notes into one coherent article. Output only the Markdown body."@
            &&& plan.temperature_tenths == 2 && plan.max_tokens == 2048
        }),
        ({
            let plan = second_question(notes, instruction);
            &&& plan.messages.len() == 2
            &&& plan.messages[0].role is System
            &&& plan.messages[0].content == "You write final articles from source notes. The next answer must be only the final article body, never the prompt or source labels."@
            &&& plan.messages[1].role is User
            &&& crate::text::begins(plan.messages[1].content, "Create the final Markdown article from the source notes below.\n\nRequirements:\n- Return only the finished article body.\n- Do not repeat the task, requirements, source labels, or source notes.\n- Keep the same language as the source notes.\n- Merge overlapping ideas and preserve only facts present in the source.\n- Use clear Markdown headings and paragraphs."@)
            &&& crate::text::ends(plan.messages[1].content, "\nSOURCE NOTES END\n\nFINAL ARTICLE:"@)
            &&& plan.temperature_tenths == 2 && plan.max_tokens == 2048
        }),
{
    let head = "Create the final Markdown article from the source notes below.\n\nRequirements:\n- Return only the finished article body.\n- Do not repeat the task, requirements, source labels, or source notes.\n- Keep the same language as the source notes.\n- Merge overlapping ideas and preserve only facts present in the source.\n- Use clear Markdown headings and paragraphs."@;
    let tail = "\nSOURCE NOTES END\n\nFINAL ARTICLE:"@;
    let whole = second_question(notes, instruction).messages[1].content;
    assert(whole.subrange(0, head.len() as int) =~= head);
    assert(whole.subrange(whole.len() - tail.len(), whole.len() as int) =~= tail);
}

/// A draft fails where there are no notes, where the answer holds nothing, and where the second
/// answer is the prompt again, and each time says so.
pub proof fn law_failed_drafts_say_why(
    notes: Seq<(Seq<char>, Seq<char>)>,
    mode: Seq<char>,
    instruction: Option<Seq<char>>,
    template: Option<Seq<char>>,
    reply: Seq<char>,
)
    ensures
        draft_begins(notes, mode, instruction, template) matches DraftStepView::Failed(e)
            ==> notes.len() == 0 && e.status == 400 && e.message == "合成対象のノートがありません"@,
        draft_continues(notes, instruction, reply) matches DraftStepView::Failed(e) ==> article_of(
            reply,
        ).len() == 0 && e.status == 500 && e.message == "合成結果が空でした"@,
        draft_ends(reply) matches DraftStepView::Failed(e) ==> e.status == 500 && e.message
            == if article_of(reply).len() == 0 {
            "合成結果が空でした"@
        } else {
            "LLMが再構成結果ではなくプロンプトを返しました。入力を短くするか、追加指示を簡潔にして再実行してください。"@
        },
        article_of(reply).len() == 0 ==> draft_continues(notes, instruction, reply) is Failed
            && draft_ends(reply) is Failed,
        draft_ends(reply) is Failed <==> article_of(reply).len() == 0 || echoes_prompt(
            article_of(reply),
        ),
        !(draft_ends(reply) is Ask),
{
}

/// A note without a title goes under a plain heading, and one with a title under it.
pub proof fn law_sections_are_headed(note: (Seq<char>, Seq<char>))
    ensures
        crate::text::blank(note.0) ==> section(note) == "## Note\n\n"@ + crate::text::trimmed(note.1),
        !crate::text::blank(note.0) ==> section(note) == "## "@ + crate::text::trimmed(note.0)
            + "\n\n"@ + crate::text::trimmed(note.1),
{
    reveal_strlit("## ");
    reveal_strlit("Note");
    reveal_strlit("\n\n");
    reveal_strlit("## Note\n\n");
    assert("## "@ + "Note"@ + "\n\n"@ =~= "## Note\n\n"@);
}

/// A template without a place for the notes is followed by them, and one without a place for the
/// wish by the wish, where there is one.
pub proof fn law_notes_and_wish_follow_the_template(
    template: Seq<char>,
    bodies: Seq<char>,
    wish: Seq<char>,
)
    ensures
        ({
            let places_notes = crate::text::has_text(template, "{notes}"@) || crate::text::has_text(
                template,
                "{input_notes}"@,
            );
            let places_wish = crate::text::has_text(template, "{instruction}"@)
                || crate::text::has_text(template, "{additional_instruction}"@);
            let tail = prompt_tail(template, bodies, wish);
            &&& places_notes && (places_wish || wish.len() == 0) ==> tail.len() == 0
            &&& !places_notes && (places_wish || wish.len() == 0) ==> tail
                == "\n\nInput notes:\n"@ + bodies
            &&& places_notes && !places_wish && wish.len() > 0 ==> tail
                == "\n\nAdditional instruction:\n"@ + wish
            &&& !places_notes && !places_wish && wish.len() > 0 ==> tail
                == "\n\nInput notes:\n"@ + bodies + ("\n\nAdditional instruction:\n"@ + wish)
        }),
        instruction_rule(None).len() == 0,
        crate::text::blank(wish) ==> instruction_rule(Some(wish)).len() == 0,
        !crate::text::blank(wish) ==> instruction_rule(Some(wish))
            == "\n- Additional instruction: "@ + crate::text::trimmed(wish),
{
    let notes = "\n\nInput notes:\n"@ + bodies;
    let orders = "\n\nAdditional instruction:\n"@ + wish;
    assert(notes + Seq::<char>::empty() =~= notes);
    assert(Seq::<char>::empty() + orders =~= orders);
    assert(Seq::<char>::empty() + Seq::<char>::empty() =~= Seq::<char>::empty());
}

/// Two lines that look like the labels of the sources, or one beside a phrase of the prompt, show
/// that the prompt was repeated. Without any of its phrases, its beginnings and such lines it was not.
pub proof fn law_labels_show_the_prompt(s: Seq<char>, i: int, j: int)
    requires
        !crate::text::blank(s),
    ensures
        ({
            let lines = crate::text::lines_of(crate::text::trimmed(s));
            let low = crate::text::lowered(crate::text::trimmed(s));
            let labelled = |k: int|
                0 <= k < lines.len() && {
                    let t = crate::text::trimmed_start(lines[k]);
                    crate::text::begins(t, "### ["@) || crate::text::begins(t, "## ["@)
                };
            &&& i < j && labelled(i) && labelled(j) ==> echoes_prompt(s)
            &&& labelled(i) && crate::text::has_any(low, prompt_markers()) ==> echoes_prompt(s)
            &&& (!crate::text::begins(low, "reconstruct the following notes"@)
                && !crate::text::begins(low, "create the final markdown article"@)
                && !crate::text::has_any(low, prompt_markers()) && forall|k: int|
                k != i ==> !#[trigger] labelled(k)) ==> !echoes_prompt(s)
        }),
{
    let lines = crate::text::lines_of(crate::text::trimmed(s));
    let low = crate::text::lowered(crate::text::trimmed(s));
    crate::text::law_every_text_is_counted_once(low, prompt_markers());
    lemma_labels_counted(lines, i, j);
    let labelled = |k: int|
        0 <= k < lines.len() && {
            let t = crate::text::trimmed_start(lines[k]);
            crate::text::begins(t, "### ["@) || crate::text::begins(t, "## ["@)
        };
    if forall|k: int| k != i ==> !#[trigger] labelled(k) {
        assert forall|k: int| 0 <= k < lines.len() && k != i implies !is_source_label(
            #[trigger] lines[k],
        ) by {
            assert(!labelled(k));
        }
    }
}

proof fn lemma_labels_counted(list: Seq<Seq<char>>, i: int, j: int)
    ensures
        0 <= i < list.len() && is_source_label(list[i]) ==> source_labels(list) >= 1,
        0 <= i < j < list.len() && is_source_label(list[i]) && is_source_label(list[j])
            ==> source_labels(list) >= 2,
        (forall|k: int| 0 <= k < list.len() && k != i ==> !is_source_label(#[trigger] list[k]))
            ==> source_labels(list) <= 1,
        (forall|k: int| 0 <= k < list.len() ==> !is_source_label(#[trigger] list[k]))
            ==> source_labels(list) == 0,
    decreases list.len(),
{
    if list.len() > 0 {
        let front = list.drop_last();
        let n = list.len() - 1;
        lemma_labels_counted(front, i, j);
        lemma_labels_counted(front, j, j);
        assert forall|k: int| 0 <= k < front.len() implies #[trigger] front[k] == list[k] by {}
        assert(list[n] == list.last());
        if forall|k: int| 0 <= k < list.len() && k != i ==> !is_source_label(#[trigger] list[k]) {
            assert forall|k: int| 0 <= k < front.len() && k != i implies !is_source_label(
                #[trigger] front[k],
            ) by {
                assert(list[k] == front[k]);
            }
            if i == n {
                assert forall|k: int| 0 <= k < front.len() implies !is_source_label(
                    #[trigger] front[k],
                ) by {
                    assert(list[k] == front[k]);
                }
            }
        }
        if forall|k: int| 0 <= k < list.len() ==> !is_source_label(#[trigger] list[k]) {
            assert forall|k: int| 0 <= k < front.len() implies !is_source_label(
                #[trigger] front[k],
            ) by {
                assert(list[k] == front[k]);
            }
        }
    }
}

} // verus!
