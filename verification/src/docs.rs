//! Document summarization: styles and options, splitting large texts,
//! digging the JSON out of a model answer, the prompts handed to the
//! language model, and the markdown rendering of finished summaries.
//!
//! The calls that load documents and run completions live outside.

use vstd::prelude::*;
use vstd::string::StringExecFns;
use crate::text::{
    all_ws, append_chars, chars_of, concat_all, dec_str, find_first, find_first_sub, is_ws_char,
    join_with, last_char, last_char_index, lemma_str_views_push,
    lemma_visible_all_push, lemma_visible_of_ws, lower_seq, str_eq, str_views, string_of,
    trim_exact, trim_spec, u64_string, vec_range, views_of, visible, visible_all,
};

verus! {

/// Errors of document summarization.
#[derive(Debug, Clone)]
pub enum DocsError {
    /// The document could not be loaded or decoded.
    PdfError(String),
    /// The language model failed.
    GeminiError(String),
    /// The model's answer did not parse as JSON.
    JsonError(String),
    /// There is nothing to summarize.
    EmptyContent,
    /// Summarization failed for another reason.
    SummarizationFailed(String),
}

/// The style of a summary.
#[derive(Debug, Clone, Copy, PartialEq, Eq)]
pub enum SummaryStyle {
    Concise,
    Detailed,
    ExamNotes,
    Bullet,
}

/// The wire name of a summary style.
pub open spec fn style_name(s: SummaryStyle) -> Seq<char> {
    match s {
        SummaryStyle::Concise => "concise"@,
        SummaryStyle::Detailed => "detailed"@,
        SummaryStyle::ExamNotes => "exam-notes"@,
        SummaryStyle::Bullet => "bullet"@,
    }
}

impl SummaryStyle {
    /// The style's name.
    pub fn name(&self) -> (r: String)
        ensures
            r@ == style_name(*self),
    {
        match self {
            SummaryStyle::Concise => String::from_str("concise"),
            SummaryStyle::Detailed => String::from_str("detailed"),
            SummaryStyle::ExamNotes => String::from_str("exam-notes"),
            SummaryStyle::Bullet => String::from_str("bullet"),
        }
    }
}

impl Default for SummaryStyle {
    /// The concise style.
    fn default() -> (r: SummaryStyle)
        ensures
            r == SummaryStyle::Concise,
    {
        SummaryStyle::Concise
    }
}

/// The style named by `style`, ASCII case ignored; an unknown name falls
/// back to the concise style.
pub fn parse_style(style: &str) -> (r: SummaryStyle)
    ensures
        lower_seq(style@) == "detailed"@ ==> r == SummaryStyle::Detailed,
        lower_seq(style@) == "exam-notes"@ || lower_seq(style@) == "exam_notes"@ ==> r
            == SummaryStyle::ExamNotes,
        lower_seq(style@) == "bullet"@ ==> r == SummaryStyle::Bullet,
{
    proof {
        reveal_strlit("detailed");
        reveal_strlit("exam-notes");
        reveal_strlit("exam_notes");
        reveal_strlit("bullet");
        assert("detailed"@.len() == 8);
        assert("exam-notes"@.len() == 10);
        assert("exam_notes"@.len() == 10);
        assert("bullet"@.len() == 6);
        assert("exam-notes"@[4] == '-' && "exam_notes"@[4] == '_');
        assert("exam-notes"@ != "exam_notes"@);
    }
    let v = chars_of(style);
    let lowv = crate::text::to_lower(&v);
    let low = string_of(&lowv);
    let m = low.as_str();
    if str_eq(m, "detailed") {
        SummaryStyle::Detailed
    } else if str_eq(m, "exam-notes") || str_eq(m, "exam_notes") {
        SummaryStyle::ExamNotes
    } else if str_eq(m, "bullet") {
        SummaryStyle::Bullet
    } else {
        SummaryStyle::Concise
    }
}

/// Options for document summarization.
#[derive(Debug, Clone)]
pub struct SummarizeOptions {
    /// Summary style.
    pub style: SummaryStyle,
    /// Output language.
    pub language: String,
    /// Maximum chunk size in tokens.
    pub max_chunk_tokens: u32,
}

impl SummarizeOptions {
    /// Concise, in English, four thousand tokens per chunk.
    pub fn new() -> (r: SummarizeOptions)
        ensures
            r.style == SummaryStyle::Concise,
            r.language@ == "en"@,
            r.max_chunk_tokens == 4000,
    {
        SummarizeOptions {
            style: SummaryStyle::Concise,
            language: String::from_str("en"),
            max_chunk_tokens: 4000,
        }
    }

    /// The same options with another style.
    pub fn with_style(self, style: SummaryStyle) -> (r: SummarizeOptions)
        ensures
            r.style == style,
            r.language == self.language,
            r.max_chunk_tokens == self.max_chunk_tokens,
    {
        SummarizeOptions { style, ..self }
    }

    /// The same options with another output language.
    pub fn with_language(self, lang: &str) -> (r: SummarizeOptions)
        ensures
            r.style == self.style,
            r.language@ == lang@,
            r.max_chunk_tokens == self.max_chunk_tokens,
    {
        SummarizeOptions { language: String::from_str(lang), ..self }
    }

    /// The same options with another chunk budget.
    pub fn with_max_chunk_tokens(self, tokens: u32) -> (r: SummarizeOptions)
        ensures
            r.style == self.style,
            r.language == self.language,
            r.max_chunk_tokens == tokens,
    {
        SummarizeOptions { max_chunk_tokens: tokens, ..self }
    }
}

/// Summary of a single document.
#[derive(Debug, Clone)]
pub struct DocumentSummary {
    pub title: Option<String>,
    pub summary: String,
    pub key_points: Vec<String>,
    pub word_count: Option<u32>,
    pub page_count: Option<u32>,
}

/// Summary of one chapter of a book.
#[derive(Debug, Clone)]
pub struct ChapterSummary {
    pub chapter_id: u32,
    pub title: String,
    pub summary: String,
    pub key_points: Vec<String>,
    pub important_terms: Vec<String>,
    pub questions_for_reflection: Vec<String>,
}

/// Summary of an entire book.
#[derive(Debug, Clone)]
pub struct BookSummary {
    pub title: Option<String>,
    pub author: Option<String>,
    pub chapters: Vec<ChapterSummary>,
    pub global_summary: String,
    pub reading_roadmap: Vec<String>,
    pub page_count: Option<u32>,
}

/// Split text on blank lines into pieces of at most roughly `max_tokens`
/// tokens (four characters per token); a single over-long paragraph stays
/// whole.  No piece is empty, and together the pieces carry every visible
/// character of the input.
pub fn split_into_chunks(text: &str, max_tokens: u32) -> (r: Vec<String>)
    ensures
        forall|i: int| 0 <= i < r@.len() ==> (#[trigger] r@[i])@.len() > 0,
        visible_all(str_views(r@)) == visible(text@),
{
    let max_chars: u128 = (max_tokens as u128) * 4;
    let t = chars_of(text);
    let mut sep: Vec<char> = Vec::new();
    sep.push('\n');
    sep.push('\n');
    proof {
        assert(sep@ =~= seq!['\n', '\n']);
        assert(all_ws(sep@));
    }
    let paras = crate::text::split_on_sep(&t, &sep);
    let ghost vws = views_of(paras@);
    let np = paras.len();
    let mut chunks: Vec<String> = Vec::new();
    let mut current: Vec<char> = Vec::new();
    let mut i: usize = 0;
    proof {
        assert(vws.subrange(0, 0) =~= Seq::<Seq<char>>::empty());
        assert(join_with(vws.subrange(0, 0), sep@) =~= Seq::<char>::empty());
        lemma_visible_of_ws(Seq::<char>::empty());
        assert(str_views(chunks@) =~= Seq::<Seq<char>>::empty());
        assert(concat_all(str_views(chunks@)) =~= Seq::<char>::empty());
        assert(visible_all(str_views(chunks@)) + visible(current@) =~= visible(
            join_with(vws.subrange(0, 0), sep@),
        ));
    }
    while i < np
        invariant
            np == paras@.len(),
            vws == views_of(paras@),
            i <= np,
            all_ws(sep@),
            forall|k: int| 0 <= k < chunks@.len() ==> (#[trigger] chunks@[k])@.len() > 0,
            visible_all(str_views(chunks@)) + visible(current@) == visible(
                join_with(vws.subrange(0, i as int), sep@),
            ),
        decreases np - i,
    {
        let ghost prefix = vws.subrange(0, i as int);
        proof {
            assert(vws.subrange(0, i as int + 1) =~= prefix.push(vws[i as int]));
            crate::chunker::lemma_vis_join_step(prefix, sep@, vws[i as int]);
            assert(paras@[i as int]@ == vws[i as int]);
        }
        let plen = paras[i].len();
        if (current.len() as u128) + (plen as u128) > max_chars && current.len() > 0 {
            let ghost pre_chunks = chunks@;
            let ghost cv = current@;
            let flushed = string_of(&current);
            chunks.push(flushed);
            proof {
                lemma_str_views_push(pre_chunks, chunks@.last());
                lemma_visible_all_push(str_views(pre_chunks), cv);
            }
            current = Vec::new();
        }
        let ghost cur_old = current@;
        if current.len() > 0 {
            current.push('\n');
            current.push('\n');
        }
        append_chars(&mut current, &paras[i]);
        proof {
            if cur_old.len() > 0 {
                assert(current@ =~= cur_old + seq!['\n', '\n'] + vws[i as int]);
                Seq::filter_distributes_over_add(
                    cur_old + seq!['\n', '\n'],
                    vws[i as int],
                    |c: char| !is_ws_char(c),
                );
                Seq::filter_distributes_over_add(
                    cur_old,
                    seq!['\n', '\n'],
                    |c: char| !is_ws_char(c),
                );
                lemma_visible_of_ws(seq!['\n', '\n']);
                assert(visible(current@) =~= visible(cur_old) + visible(vws[i as int]));
            } else {
                assert(current@ =~= vws[i as int]);
                assert(visible(cur_old) =~= Seq::<char>::empty());
            }
            assert(visible_all(str_views(chunks@)) + visible(current@) =~= visible(
                join_with(vws.subrange(0, i as int + 1), sep@),
            ));
        }
        i = i + 1;
    }
    if current.len() > 0 {
        let ghost pre_chunks = chunks@;
        let ghost cv = current@;
        let flushed = string_of(&current);
        chunks.push(flushed);
        proof {
            lemma_str_views_push(pre_chunks, chunks@.last());
            lemma_visible_all_push(str_views(pre_chunks), cv);
        }
    } else {
        proof {
            assert(visible(current@) =~= Seq::<char>::empty());
        }
    }
    proof {
        assert(vws.subrange(0, np as int) =~= vws);
        assert(join_with(vws, sep@) == t@);
        assert(visible_all(str_views(chunks@)) =~= visible(text@));
    }
    chunks
}

/// The JSON part of a model answer, as `extract_json` finds it: the trimmed
/// answer when it already starts with a brace or a bracket; otherwise the
/// body of a ```` ```json ```` fence; otherwise the body of a plain fence,
/// with a first line (a language tag) dropped; otherwise the span from the
/// first `{` to the last `}`; otherwise the trimmed answer itself.
pub open spec fn extract_json_spec(text: Seq<char>) -> Seq<char> {
    let t = trim_spec(text);
    if t.len() > 0 && (t[0] == '{' || t[0] == '[') {
        t
    } else {
        extract_json_fenced(t)
    }
}

/// The fence cases of `extract_json_spec`.
pub open spec fn extract_json_fenced(t: Seq<char>) -> Seq<char> {
    let j = find_first(t, "```json"@);
    let rest = t.subrange(j + 7, t.len() as int);
    if j >= 0 && find_first(rest, "```"@) >= 0 {
        trim_spec(rest.subrange(0, find_first(rest, "```"@)))
    } else {
        extract_json_plain_fence(t)
    }
}

/// The plain-fence and brace cases of `extract_json_spec`.
pub open spec fn extract_json_plain_fence(t: Seq<char>) -> Seq<char> {
    let j = find_first(t, "```"@);
    let rest = t.subrange(j + 3, t.len() as int);
    if j >= 0 && find_first(rest, "```"@) >= 0 {
        let content = trim_spec(rest.subrange(0, find_first(rest, "```"@)));
        let nl = find_first(content, "\n"@);
        if nl >= 0 {
            trim_spec(content.subrange(nl + 1, content.len() as int))
        } else {
            content
        }
    } else {
        extract_json_braced(t)
    }
}

/// The brace case of `extract_json_spec`.
pub open spec fn extract_json_braced(t: Seq<char>) -> Seq<char> {
    let a = find_first(t, "{"@);
    let b = last_char(t, '}');
    if a >= 0 && b >= 0 && a <= b {
        t.subrange(a, b + 1)
    } else {
        t
    }
}

/// Dig the JSON out of a model answer that may carry markdown fences or
/// other prose around it.
pub fn extract_json(text: &str) -> (r: String)
    ensures
        r@ == extract_json_spec(text@),
{
    let raw = chars_of(text);
    let t = trim_exact(&raw);
    let tn = t.len();
    if tn > 0 {
        let c0 = t[0];
        if c0 == '{' || c0 == '[' {
            return string_of(&t);
        }
    }
    let fence_json = chars_of("```json");
    let fence = chars_of("```");
    proof {
        reveal_strlit("```json");
        reveal_strlit("```");
        assert("```json"@.len() == 7);
        assert("```"@.len() == 3);
    }
    if let Some(j) = find_first_sub(&t, &fence_json) {
        let rest = vec_range(&t, j + 7, tn);
        proof {
            assert(rest@ =~= t@.subrange(j as int + 7, t@.len() as int));
        }
        if let Some(e) = find_first_sub(&rest, &fence) {
            let body = vec_range(&rest, 0, e);
            proof {
                assert(body@ =~= rest@.subrange(0, e as int));
            }
            let out = trim_exact(&body);
            return string_of(&out);
        }
    }
    if let Some(j) = find_first_sub(&t, &fence) {
        let rest = vec_range(&t, j + 3, tn);
        proof {
            assert(rest@ =~= t@.subrange(j as int + 3, t@.len() as int));
        }
        if let Some(e) = find_first_sub(&rest, &fence) {
            let body = vec_range(&rest, 0, e);
            proof {
                assert(body@ =~= rest@.subrange(0, e as int));
            }
            let content = trim_exact(&body);
            let newline = chars_of("\n");
            proof {
                reveal_strlit("\n");
                assert("\n"@.len() == 1);
            }
            if let Some(nl) = find_first_sub(&content, &newline) {
                let cl = content.len();
                let tail = vec_range(&content, nl + 1, cl);
                proof {
                    assert(tail@ =~= content@.subrange(nl as int + 1, content@.len() as int));
                }
                let out = trim_exact(&tail);
                return string_of(&out);
            }
            return string_of(&content);
        }
    }
    let brace = chars_of("{");
    proof {
        reveal_strlit("{");
        assert("{"@.len() == 1);
    }
    let a = find_first_sub(&t, &brace);
    let b = last_char_index(&t, '}');
    match (a, b) {
        (Some(a), Some(b)) => {
            if a <= b {
                let span = vec_range(&t, a, b + 1);
                proof {
                    assert(span@ =~= t@.subrange(a as int, b as int + 1));
                }
                string_of(&span)
            } else {
                string_of(&t)
            }
        },
        _ => string_of(&t),
    }
}

/// The prompt asking for a direct summary of one text.
pub open spec fn summary_prompt(style: SummaryStyle, language: Seq<char>, text: Seq<char>) -> Seq<
    char,
> {
    "Summarize the following text in "@ + style_name(style) + " style.\nLanguage: "@ + language
        + "\n\nRespond with valid JSON only, in this exact format:\n{\n  \"summary\": \"A comprehensive summary of the document\",\n  \"key_points\": [\"Key point 1\", \"Key point 2\", \"Key point 3\"]\n}\n\nText to summarize:\n"@
        + text + "\n"@
}

/// Build the prompt asking for a direct summary of one text.
pub fn build_summary_prompt(options: &SummarizeOptions, text: &str) -> (r: String)
    ensures
        r@ == summary_prompt(options.style, options.language@, text@),
{
    let mut r = String::from_str("Summarize the following text in ");
    let style = options.style.name();
    r.append(style.as_str());
    r.append(" style.\nLanguage: ");
    r.append(options.language.as_str());
    r.append(
        "\n\nRespond with valid JSON only, in this exact format:\n{\n  \"summary\": \"A comprehensive summary of the document\",\n  \"key_points\": [\"Key point 1\", \"Key point 2\", \"Key point 3\"]\n}\n\nText to summarize:\n",
    );
    r.append(text);
    r.append("\n");
    proof {
        assert(r@ =~= summary_prompt(options.style, options.language@, text@));
    }
    r
}

/// The prompt asking to combine section summaries into one.
pub open spec fn combine_prompt(
    style: SummaryStyle,
    language: Seq<char>,
    combined: Seq<char>,
) -> Seq<char> {
    "Combine these section summaries into a single coherent summary in "@ + style_name(style)
        + " style.\nLanguage: "@ + language
        + "\n\nRespond with valid JSON only, in this exact format:\n{\n  \"summary\": \"A comprehensive summary combining all sections\",\n  \"key_points\": [\"Key point 1\", \"Key point 2\", \"Key point 3\"]\n}\n\nSection summaries:\n"@
        + combined + "\n"@
}

/// Build the prompt asking to combine section summaries, the sections joined
/// by blank lines.
pub fn build_combine_prompt(options: &SummarizeOptions, summaries: &Vec<String>) -> (r: String)
    ensures
        r@ == combine_prompt(
            options.style,
            options.language@,
            join_with(str_views(summaries@), "\n\n"@),
        ),
{
    let combined = crate::text::join_strings(summaries, "\n\n");
    let mut r = String::from_str("Combine these section summaries into a single coherent summary in ");
    let style = options.style.name();
    r.append(style.as_str());
    r.append(" style.\nLanguage: ");
    r.append(options.language.as_str());
    r.append(
        "\n\nRespond with valid JSON only, in this exact format:\n{\n  \"summary\": \"A comprehensive summary combining all sections\",\n  \"key_points\": [\"Key point 1\", \"Key point 2\", \"Key point 3\"]\n}\n\nSection summaries:\n",
    );
    r.append(combined.as_str());
    r.append("\n");
    proof {
        assert(r@ =~= combine_prompt(
            options.style,
            options.language@,
            join_with(str_views(summaries@), "\n\n"@),
        ));
    }
    r
}

/// The prompt asking for the summary of one book chapter.
pub open spec fn chapter_prompt(
    style: SummaryStyle,
    language: Seq<char>,
    chapter_id: int,
    title: Seq<char>,
    text: Seq<char>,
) -> Seq<char> {
    "Summarize this book chapter in "@ + style_name(style) + " style.\nLanguage: "@ + language
        + "\nChapter: "@ + dec_str(chapter_id) + " - "@ + title
        + "\n\nRespond with valid JSON only, in this exact format:\n{\n  \"summary\": \"A comprehensive summary of the chapter\",\n  \"key_points\": [\"Key point 1\", \"Key point 2\"],\n  \"important_terms\": [\"Term 1\", \"Term 2\"],\n  \"questions_for_reflection\": [\"Question 1\", \"Question 2\"]\n}\n\nChapter text:\n"@
        + text + "\n"@
}

/// Build the prompt asking for the summary of one book chapter.
pub fn build_chapter_prompt(
    options: &SummarizeOptions,
    chapter: &crate::pdf::Chapter,
    text: &str,
) -> (r: String)
    ensures
        r@ == chapter_prompt(
            options.style,
            options.language@,
            chapter.id as int,
            chapter.title@,
            text@,
        ),
{
    let mut r = String::from_str("Summarize this book chapter in ");
    let style = options.style.name();
    r.append(style.as_str());
    r.append(" style.\nLanguage: ");
    r.append(options.language.as_str());
    r.append("\nChapter: ");
    let num = u64_string(chapter.id as u64);
    r.append(num.as_str());
    r.append(" - ");
    r.append(chapter.title.as_str());
    r.append(
        "\n\nRespond with valid JSON only, in this exact format:\n{\n  \"summary\": \"A comprehensive summary of the chapter\",\n  \"key_points\": [\"Key point 1\", \"Key point 2\"],\n  \"important_terms\": [\"Term 1\", \"Term 2\"],\n  \"questions_for_reflection\": [\"Question 1\", \"Question 2\"]\n}\n\nChapter text:\n",
    );
    r.append(text);
    r.append("\n");
    proof {
        assert(r@ =~= chapter_prompt(
            options.style,
            options.language@,
            chapter.id as int,
            chapter.title@,
            text@,
        ));
    }
    r
}

/// The heading-plus-summary block one chapter contributes to the global
/// summary prompt.
pub open spec fn chapter_outline(c: ChapterSummary) -> Seq<char> {
    "## "@ + c.title@ + "\n"@ + c.summary@
}

/// The prompt asking for a book's overall summary and reading roadmap.
pub open spec fn global_summary_prompt(language: Seq<char>, outlines: Seq<char>) -> Seq<char> {
    "Based on these chapter summaries, create an overall book summary and reading roadmap.\nLanguage: "@
        + language
        + "\n\nRespond with valid JSON only, in this exact format:\n{\n  \"summary\": \"A comprehensive summary of the entire book\",\n  \"roadmap\": [\"Start with one chapter because...\", \"Then read the next...\", \"Finally...\"]\n}\n\nChapter summaries:\n"@
        + outlines + "\n"@
}

/// Build the prompt asking for a book's overall summary, the chapter
/// outlines joined by blank lines.
pub fn build_global_summary_prompt(
    options: &SummarizeOptions,
    chapters: &Vec<ChapterSummary>,
) -> (r: String)
    ensures
        r@ == global_summary_prompt(
            options.language@,
            join_with(chapters@.map_values(|c: ChapterSummary| chapter_outline(c)), "\n\n"@),
        ),
{
    let n = chapters.len();
    let mut outlines: Vec<String> = Vec::new();
    let mut i: usize = 0;
    proof {
        assert(str_views(outlines@) =~= chapters@.subrange(0, 0).map_values(
            |c: ChapterSummary| chapter_outline(c),
        ));
    }
    while i < n
        invariant
            n == chapters@.len(),
            i <= n,
            str_views(outlines@) == chapters@.subrange(0, i as int).map_values(
                |c: ChapterSummary| chapter_outline(c),
            ),
        decreases n - i,
    {
        let c = &chapters[i];
        let mut block = String::from_str("## ");
        block.append(c.title.as_str());
        block.append("\n");
        block.append(c.summary.as_str());
        let ghost pre = outlines@;
        outlines.push(block);
        proof {
            lemma_str_views_push(pre, outlines@.last());
            assert(str_views(outlines@) =~= chapters@.subrange(0, i as int + 1).map_values(
                |c: ChapterSummary| chapter_outline(c),
            ));
        }
        i = i + 1;
    }
    proof {
        assert(chapters@.subrange(0, n as int) =~= chapters@);
    }
    let joined = crate::text::join_strings(&outlines, "\n\n");
    let mut r = String::from_str(
        "Based on these chapter summaries, create an overall book summary and reading roadmap.\nLanguage: ",
    );
    r.append(options.language.as_str());
    r.append(
        "\n\nRespond with valid JSON only, in this exact format:\n{\n  \"summary\": \"A comprehensive summary of the entire book\",\n  \"roadmap\": [\"Start with one chapter because...\", \"Then read the next...\", \"Finally...\"]\n}\n\nChapter summaries:\n",
    );
    r.append(joined.as_str());
    r.append("\n");
    proof {
        assert(r@ =~= global_summary_prompt(
            options.language@,
            join_with(chapters@.map_values(|c: ChapterSummary| chapter_outline(c)), "\n\n"@),
        ));
    }
    r
}

/// Markdown bullet lines, one per item.
pub open spec fn bullet_lines(items: Seq<Seq<char>>) -> Seq<char>
    decreases items.len(),
{
    if items.len() == 0 {
        Seq::empty()
    } else {
        "- "@ + items[0] + "\n"@ + bullet_lines(items.drop_first())
    }
}

/// Render markdown bullet lines for the items.
pub fn render_bullets(items: &Vec<String>) -> (r: String)
    ensures
        r@ == bullet_lines(str_views(items@)),
{
    let n = items.len();
    let mut r = String::new();
    let mut i: usize = 0;
    let ghost all = str_views(items@);
    proof {
        assert(all.subrange(0, n as int) =~= all);
    }
    while i < n
        invariant
            n == items@.len(),
            all == str_views(items@),
            i <= n,
            bullet_lines(all) == r@ + bullet_lines(all.subrange(i as int, n as int)),
        decreases n - i,
    {
        let ghost tail = all.subrange(i as int, n as int);
        proof {
            assert(tail.len() > 0);
            assert(tail[0] == items@[i as int]@);
            assert(tail.drop_first() =~= all.subrange(i as int + 1, n as int));
        }
        r.append("- ");
        r.append(items[i].as_str());
        r.append("\n");
        i = i + 1;
        proof {
            assert(bullet_lines(all) =~= r@ + bullet_lines(all.subrange(i as int, n as int)));
        }
    }
    proof {
        assert(all.subrange(n as int, n as int) =~= Seq::<Seq<char>>::empty());
        assert(bullet_lines(Seq::<Seq<char>>::empty()) =~= Seq::<char>::empty());
        assert(r@ =~= bullet_lines(all));
    }
    r
}

/// Numbered markdown lines, one per item, counted from `start`.
pub open spec fn numbered_lines(items: Seq<Seq<char>>, start: int) -> Seq<char>
    decreases items.len(),
{
    if items.len() == 0 {
        Seq::empty()
    } else {
        dec_str(start) + ". "@ + items[0] + "\n"@ + numbered_lines(items.drop_first(), start + 1)
    }
}

/// Render numbered markdown lines, counted from one.
pub fn render_numbered(items: &Vec<String>) -> (r: String)
    requires
        items@.len() < 0xffffffffffffffff,
    ensures
        r@ == numbered_lines(str_views(items@), 1),
{
    let n = items.len();
    let mut r = String::new();
    let mut i: usize = 0;
    let ghost all = str_views(items@);
    proof {
        assert(all.subrange(0, n as int) =~= all);
    }
    while i < n
        invariant
            n == items@.len(),
            n < 0xffffffffffffffff,
            all == str_views(items@),
            i <= n,
            numbered_lines(all, 1) == r@ + numbered_lines(
                all.subrange(i as int, n as int),
                i as int + 1,
            ),
        decreases n - i,
    {
        let ghost tail = all.subrange(i as int, n as int);
        proof {
            assert(tail.len() > 0);
            assert(tail[0] == items@[i as int]@);
            assert(tail.drop_first() =~= all.subrange(i as int + 1, n as int));
        }
        let num = u64_string((i + 1) as u64);
        r.append(num.as_str());
        r.append(". ");
        r.append(items[i].as_str());
        r.append("\n");
        i = i + 1;
        proof {
            assert(numbered_lines(all, 1) =~= r@ + numbered_lines(
                all.subrange(i as int, n as int),
                i as int + 1,
            ));
        }
    }
    proof {
        assert(all.subrange(n as int, n as int) =~= Seq::<Seq<char>>::empty());
        assert(numbered_lines(Seq::<Seq<char>>::empty(), n as int + 1) =~= Seq::<char>::empty());
        assert(r@ =~= numbered_lines(all, 1));
    }
    r
}

/// The markdown rendering of a document summary.
pub open spec fn document_summary_md(s: DocumentSummary) -> Seq<char> {
    (match s.title {
        Some(t) => "# "@ + t@ + "\n\n"@,
        None => Seq::empty(),
    }) + "## Summary\n\n"@ + s.summary@ + "\n\n"@ + (if s.key_points@.len() > 0 {
        "## Key Points\n\n"@ + bullet_lines(str_views(s.key_points@)) + "\n"@
    } else {
        Seq::empty()
    }) + (match s.page_count {
        Some(p) => "---\n*"@ + dec_str(p as int) + " pages*\n"@,
        None => Seq::empty(),
    })
}

/// Render a document summary as markdown: the title as a heading, the
/// summary, the key points as bullets, and the page count as a footer.
pub fn document_summary_to_markdown(summary: &DocumentSummary) -> (r: String)
    ensures
        r@ == document_summary_md(*summary),
{
    let mut md = String::new();
    if let Some(title) = &summary.title {
        md.append("# ");
        md.append(title.as_str());
        md.append("\n\n");
    }
    md.append("## Summary\n\n");
    md.append(summary.summary.as_str());
    md.append("\n\n");
    if summary.key_points.len() > 0 {
        md.append("## Key Points\n\n");
        let bullets = render_bullets(&summary.key_points);
        md.append(bullets.as_str());
        md.append("\n");
    }
    if let Some(pages) = summary.page_count {
        md.append("---\n*");
        let num = u64_string(pages as u64);
        md.append(num.as_str());
        md.append(" pages*\n");
    }
    proof {
        assert(md@ =~= document_summary_md(*summary));
    }
    md
}

/// The markdown rendering of one chapter.
pub open spec fn chapter_md(c: ChapterSummary) -> Seq<char> {
    "### "@ + dec_str(c.chapter_id as int) + ". "@ + c.title@ + "\n\n"@ + c.summary@ + "\n\n"@ + (
    if c.key_points@.len() > 0 {
        "**Key Points:**\n"@ + bullet_lines(str_views(c.key_points@)) + "\n"@
    } else {
        Seq::empty()
    }) + (if c.important_terms@.len() > 0 {
        "**Terms:** "@ + join_with(str_views(c.important_terms@), ", "@) + "\n\n"@
    } else {
        Seq::empty()
    })
}

/// The markdown rendering of all chapters, in order.
pub open spec fn chapters_md(cs: Seq<ChapterSummary>) -> Seq<char>
    decreases cs.len(),
{
    if cs.len() == 0 {
        Seq::empty()
    } else {
        chapter_md(cs[0]) + chapters_md(cs.drop_first())
    }
}

/// The markdown rendering of a book summary.
pub open spec fn book_summary_md(s: BookSummary) -> Seq<char> {
    (match s.title {
        Some(t) => "# "@ + t@ + "\n\n"@,
        None => Seq::empty(),
    }) + (match s.author {
        Some(a) => "*By "@ + a@ + "*\n\n"@,
        None => Seq::empty(),
    }) + "## Overview\n\n"@ + s.global_summary@ + "\n\n"@ + (if s.reading_roadmap@.len() > 0 {
        "## Reading Roadmap\n\n"@ + numbered_lines(str_views(s.reading_roadmap@), 1) + "\n"@
    } else {
        Seq::empty()
    }) + "---\n\n## Chapters\n\n"@ + chapters_md(s.chapters@) + (match s.page_count {
        Some(p) => "---\n*"@ + dec_str(p as int) + " pages*\n"@,
        None => Seq::empty(),
    })
}

/// Render one chapter as markdown.
fn render_chapter(c: &ChapterSummary) -> (r: String)
    ensures
        r@ == chapter_md(*c),
{
    let mut md = String::from_str("### ");
    let num = u64_string(c.chapter_id as u64);
    md.append(num.as_str());
    md.append(". ");
    md.append(c.title.as_str());
    md.append("\n\n");
    md.append(c.summary.as_str());
    md.append("\n\n");
    if c.key_points.len() > 0 {
        md.append("**Key Points:**\n");
        let bullets = render_bullets(&c.key_points);
        md.append(bullets.as_str());
        md.append("\n");
    }
    if c.important_terms.len() > 0 {
        md.append("**Terms:** ");
        let terms = crate::text::join_strings(&c.important_terms, ", ");
        md.append(terms.as_str());
        md.append("\n\n");
    }
    proof {
        assert(md@ =~= chapter_md(*c));
    }
    md
}

/// Render all chapters as markdown, in order.
fn render_chapters(cs: &Vec<ChapterSummary>) -> (r: String)
    ensures
        r@ == chapters_md(cs@),
{
    let n = cs.len();
    let mut r = String::new();
    let mut i: usize = 0;
    proof {
        assert(cs@.subrange(0, n as int) =~= cs@);
    }
    while i < n
        invariant
            n == cs@.len(),
            i <= n,
            chapters_md(cs@) == r@ + chapters_md(cs@.subrange(i as int, n as int)),
        decreases n - i,
    {
        let ghost tail = cs@.subrange(i as int, n as int);
        proof {
            assert(tail.len() > 0);
            assert(tail[0] == cs@[i as int]);
            assert(tail.drop_first() =~= cs@.subrange(i as int + 1, n as int));
        }
        let block = render_chapter(&cs[i]);
        r.append(block.as_str());
        i = i + 1;
        proof {
            assert(chapters_md(cs@) =~= r@ + chapters_md(cs@.subrange(i as int, n as int)));
        }
    }
    proof {
        assert(cs@.subrange(n as int, n as int) =~= Seq::<ChapterSummary>::empty());
        assert(chapters_md(Seq::<ChapterSummary>::empty()) =~= Seq::<char>::empty());
        assert(r@ =~= chapters_md(cs@));
    }
    r
}

/// Render a book summary as markdown: title and author, the overview, the
/// reading roadmap, every chapter in order, and the page count as a footer.
pub fn book_summary_to_markdown(summary: &BookSummary) -> (r: String)
    requires
        summary.reading_roadmap@.len() < 0xffffffffffffffff,
    ensures
        r@ == book_summary_md(*summary),
{
    let mut md = String::new();
    if let Some(title) = &summary.title {
        md.append("# ");
        md.append(title.as_str());
        md.append("\n\n");
    }
    if let Some(author) = &summary.author {
        md.append("*By ");
        md.append(author.as_str());
        md.append("*\n\n");
    }
    md.append("## Overview\n\n");
    md.append(summary.global_summary.as_str());
    md.append("\n\n");
    if summary.reading_roadmap.len() > 0 {
        md.append("## Reading Roadmap\n\n");
        let steps = render_numbered(&summary.reading_roadmap);
        md.append(steps.as_str());
        md.append("\n");
    }
    md.append("---\n\n## Chapters\n\n");
    let chapters = render_chapters(&summary.chapters);
    md.append(chapters.as_str());
    if let Some(pages) = summary.page_count {
        md.append("---\n*");
        let num = u64_string(pages as u64);
        md.append(num.as_str());
        md.append(" pages*\n");
    }
    proof {
        assert(md@ =~= book_summary_md(*summary));
    }
    md
}

} // verus!
