//! Natural language to query: the prompt sent to the language model and
//! the cleaning of its answer into a single query line.
use vstd::prelude::*;
use crate::text::{
    chars_between, chars_of, find_from, first_occurrence, lemma_first_occurrence, lemma_first_occurrence_spec, lemma_no_occurrence, lemma_trim_part,
    occurs_at, seq_ends_with, seq_starts_with, string_of, trim, trim_chars, trim_end_matches_chars,
    trim_end_matches_spec, trim_spec, trim_start_matches_chars, trim_start_matches_spec,
};

verus! {

/// The query syntax guide given to the model as its system message.
pub const QUICK_GUIDE: &'static str = "# LogSeek 查询字符串规范\n\n\
把用户的自然语言需求改写为一行 LogSeek 查询字符串，只输出这一行，不要解释。\n\n\
## 关键字\n\
- 普通词：不区分大小写的子串匹配，例如 error\n\
- 短语：用双引号包住，区分大小写的子串匹配，例如 \"connection reset\"\n\
- 正则：用斜杠包住，例如 /ERR\\d+/；支持前瞻与后顾\n\n\
## 布尔组合\n\
- 相邻的词表示同时出现（AND），也可以显式写 AND\n\
- OR 表示任一出现；AND 的优先级高于 OR\n\
- 前缀 - 或 NOT 表示不得出现\n\
- 用圆括号分组，例如 (error OR fail) -debug\n\n\
## 限定词\n\
- path:<glob> 只搜索匹配的路径；-path:<glob> 排除匹配的路径\n\
- app:<名称> 选择数据源规划；encoding:<编码> 指定文件编码，例如 encoding:GBK\n\
- dt:YYYYMMDD 指定某一天；fdt:YYYYMMDD 与 tdt:YYYYMMDD 指定起止日期\n\n\
## 示例\n\
- 需求：查找 nginx 日志中的 502 错误 → path:**/nginx/*.log 502\n\
- 需求：最近一天 payment 服务的超时或拒绝 → app:payment (timeout OR refused)\n";

/// The request body of the natural language endpoint.
#[derive(Debug, Clone)]
pub struct NLBody {
    /// The requirement in natural language.
    pub nl: String,
}

/// The generated query.
#[derive(Debug, Clone)]
pub struct NL2QResponse {
    /// The query string.
    pub q: String,
}

/// Failures of query generation.
#[derive(Debug)]
pub enum NL2QError {
    /// The model service could not be reached or answered with an error.
    Http(String),
    /// The model's answer was empty once cleaned.
    Empty,
}

impl NL2QError {
    /// The text of the error.
    pub fn message(&self) -> (r: String)
        ensures
            self matches NL2QError::Http(m) ==> r@ == "Ollama服务未就绪或连接失败: "@ + m@,
            self is Empty ==> r@ == "AI 生成了空结果，请重试或改写需求"@,
    {
        match self {
            NL2QError::Http(m) => {
                let mut s = String::from_str("Ollama服务未就绪或连接失败: ");
                s.append(m.as_str());
                s
            },
            NL2QError::Empty => String::from_str("AI 生成了空结果，请重试或改写需求"),
        }
    }
}

/// The author of a chat message.
#[derive(Debug, Clone, Copy, PartialEq, Eq)]
pub enum Role {
    System,
    User,
    Assistant,
}

/// One message of a chat with the model.
#[derive(Debug)]
pub struct ChatMessage {
    pub role: Role,
    pub content: String,
}

/// The messages sent to the model: the syntax guide as the system message,
/// then the trimmed requirement as the user message.
pub fn build_messages(user_nl: &str) -> (r: Vec<ChatMessage>)
    ensures
        r@.len() == 2,
        r@[0].role == Role::System,
        r@[0].content@ == QUICK_GUIDE@,
        r@[1].role == Role::User,
        r@[1].content@ == trim_spec(user_nl@),
{
    let system = ChatMessage { role: Role::System, content: String::from_str(QUICK_GUIDE) };
    let user = ChatMessage { role: Role::User, content: trim(user_nl) };
    let mut v: Vec<ChatMessage> = Vec::new();
    v.push(system);
    v.push(user);
    v
}

/// The opening tag of a reasoning section.
pub open spec fn think_open() -> Seq<char> {
    seq!['<', 't', 'h', 'i', 'n', 'k', '>']
}

/// The closing tag of a reasoning section.
pub open spec fn think_close() -> Seq<char> {
    seq!['<', '/', 't', 'h', 'i', 'n', 'k', '>']
}

/// `s` with its reasoning sections removed: the first `<think>` and the
/// first `</think>` after it are cut out with everything between them, and
/// the result is searched again from its start; an opening tag without a
/// closing one is cut out with everything after it.
#[verifier::opaque]
pub open spec fn strip_think(s: Seq<char>) -> Seq<char>
    decreases s.len(),
{
    match first_occurrence(s, think_open()) {
        None => s,
        Some(start) => if 0 <= start <= s.len() {
            match first_occurrence(s.skip(start), think_close()) {
                Some(rel) => if 0 <= rel && start + rel + 8 <= s.len() {
                    strip_think(s.take(start) + s.skip(start + rel + 8))
                } else {
                    s
                },
                None => s.take(start),
            }
        } else {
            s
        },
    }
}

/// One step of `strip_think`: a closed section is cut out.
proof fn lemma_strip_closed(s: Seq<char>, start: int, end: int)
    requires
        occurs_at(s, think_open(), start),
        forall|j: int| 0 <= j < start ==> !occurs_at(s, think_open(), j),
        start <= end,
        occurs_at(s, think_close(), end),
        forall|j: int| start <= j < end ==> !occurs_at(s, think_close(), j),
    ensures
        strip_think(s) == strip_think(s.take(start) + s.skip(end + 8)),
{
    reveal(strip_think);
    lemma_first_occurrence(s, think_open(), start);
    let rest = s.skip(start);
    let rel = end - start;
    assert forall|j: int| 0 <= j < rel implies !occurs_at(rest, think_close(), j) by {
        if occurs_at(rest, think_close(), j) {
            assert(rest.subrange(j, j + 8) =~= s.subrange(start + j, start + j + 8));
            assert(occurs_at(s, think_close(), start + j));
        }
    }
    assert(rest.subrange(rel, rel + 8) =~= s.subrange(end, end + 8));
    lemma_first_occurrence(rest, think_close(), rel);
}

/// The last step of `strip_think`: an unclosed section is cut out with
/// everything after it, and what is left holds no section.
proof fn lemma_strip_unclosed(s: Seq<char>, start: int)
    requires
        occurs_at(s, think_open(), start),
        forall|j: int| 0 <= j < start ==> !occurs_at(s, think_open(), j),
        forall|j: int| start <= j ==> !occurs_at(s, think_close(), j),
    ensures
        strip_think(s) == s.take(start),
        strip_think(s.take(start)) == s.take(start),
{
    reveal(strip_think);
    lemma_first_occurrence(s, think_open(), start);
    let rest = s.skip(start);
    assert forall|j: int| 0 <= j implies !occurs_at(rest, think_close(), j) by {
        if occurs_at(rest, think_close(), j) {
            assert(rest.subrange(j, j + 8) =~= s.subrange(start + j, start + j + 8));
            assert(occurs_at(s, think_close(), start + j));
        }
    }
    lemma_no_occurrence(rest, think_close());
    let head = s.take(start);
    assert forall|j: int| 0 <= j implies !occurs_at(head, think_open(), j) by {
        if occurs_at(head, think_open(), j) {
            assert(head.subrange(j, j + 7) =~= s.subrange(j, j + 7));
            assert(occurs_at(s, think_open(), j));
        }
    }
    lemma_no_occurrence(head, think_open());
}

/// A text without an opening tag has no section to remove.
proof fn lemma_strip_none(s: Seq<char>)
    requires
        forall|j: int| 0 <= j ==> !occurs_at(s, think_open(), j),
    ensures
        strip_think(s) == s,
{
    reveal(strip_think);
    lemma_no_occurrence(s, think_open());
}

/// Removing the reasoning sections leaves no opening tag, so removing them
/// again changes nothing; a text without an opening tag is left as it is.
pub proof fn lemma_strip_think_laws(s: Seq<char>)
    ensures
        forall|j: int| 0 <= j ==> !occurs_at(strip_think(s), think_open(), j),
        strip_think(strip_think(s)) == strip_think(s),
        (forall|j: int| 0 <= j ==> !occurs_at(s, think_open(), j)) ==> strip_think(s) == s,
{
    lemma_strip_leaves_no_open(s);
    lemma_strip_none(strip_think(s));
    if forall|j: int| 0 <= j ==> !occurs_at(s, think_open(), j) {
        lemma_strip_none(s);
    }
}

/// The text that `strip_think` leaves holds no opening tag.
proof fn lemma_strip_leaves_no_open(s: Seq<char>)
    ensures
        forall|j: int| 0 <= j ==> !occurs_at(strip_think(s), think_open(), j),
    decreases s.len(),
{
    reveal(strip_think);
    lemma_first_occurrence_spec(s, think_open());
    match first_occurrence(s, think_open()) {
        None => {
            assert(strip_think(s) == s);
        },
        Some(start) => {
            let rest = s.skip(start);
            lemma_first_occurrence_spec(rest, think_close());
            match first_occurrence(rest, think_close()) {
                Some(rel) => {
                    assert(0 <= start && start + 7 <= s.len());
                    assert(0 <= rel && rel + 8 <= rest.len());
                    let t = s.take(start) + s.skip(start + rel + 8);
                    assert(strip_think(s) == strip_think(t));
                    assert(t.len() < s.len());
                    lemma_strip_leaves_no_open(t);
                },
                None => {
                    assert(0 <= start && start + 7 <= s.len());
                    let head = s.take(start);
                    assert(strip_think(s) == head);
                    assert forall|j: int| 0 <= j implies !occurs_at(head, think_open(), j) by {
                        if occurs_at(head, think_open(), j) {
                            assert(head.subrange(j, j + 7) =~= s.subrange(j, j + 7));
                            assert(occurs_at(s, think_open(), j));
                        }
                    }
                },
            }
        },
    }
}

/// Removes the reasoning sections (`<think>` … `</think>`) that reasoning
/// models put in their answers.
pub fn strip_think_sections(input: &str) -> (r: String)
    ensures
        r@ == strip_think(input@),
{
    let open: Vec<char> = vec!['<', 't', 'h', 'i', 'n', 'k', '>'];
    let close: Vec<char> = vec!['<', '/', 't', 'h', 'i', 'n', 'k', '>'];
    assert(open@ =~= think_open());
    assert(close@ =~= think_close());
    let mut out = chars_of(input);
    loop
        invariant
            open@ == think_open(),
            close@ == think_close(),
            strip_think(input@) == strip_think(out@),
        ensures
            strip_think(input@) == out@,
        decreases out@.len(),
    {
        match find_from(&out, &open, 0) {
            None => {
                proof {
                    lemma_strip_none(out@);
                }
                break;
            },
            Some(start) => {
                match find_from(&out, &close, start) {
                    Some(end_abs) => {
                        proof {
                            lemma_strip_closed(out@, start as int, end_abs as int);
                        }
                        let n = out.len();
                        let head = chars_between(&out, 0, start);
                        let tail = chars_between(&out, end_abs + 8, n);
                        let mut joined = head;
                        let mut t = tail;
                        joined.append(&mut t);
                        proof {
                            assert(joined@ =~= out@.take(start as int) + out@.skip(end_abs + 8));
                        }
                        out = joined;
                    },
                    None => {
                        proof {
                            lemma_strip_unclosed(out@, start as int);
                        }
                        out = chars_between(&out, 0, start);
                        break;
                    },
                }
            },
        }
    }
    string_of(out.as_slice())
}

/// The code fence of Markdown.
pub open spec fn fence() -> Seq<char> {
    seq!['`', '`', '`']
}

/// The cleaned answer of the model: trimmed, reasoning sections removed
/// and trimmed again; a fenced code block is unwrapped (its opening fence
/// lines and closing fence lines stripped) and trimmed; only the first line
/// is kept, trimmed. Double quotes stay: they are part of the syntax.
pub open spec fn clean_spec(content: Seq<char>) -> Seq<char> {
    let q1 = trim_spec(strip_think(trim_spec(content)));
    let q2 = if seq_starts_with(q1, fence()) && seq_ends_with(q1, fence()) {
        trim_spec(trim_end_matches_spec(trim_start_matches_spec(q1, fence().push('\n')), seq!['\n'] + fence()))
    } else {
        q1
    };
    match first_occurrence(q2, seq!['\n']) {
        Some(p) => trim_spec(q2.take(p)),
        None => q2,
    }
}

/// The cleaned answer is one line: it holds no line feed.
pub proof fn lemma_clean_one_line(content: Seq<char>)
    ensures
        forall|i: int| 0 <= i < clean_spec(content).len() ==> clean_spec(content)[i] != '\n',
{
    let q1 = trim_spec(strip_think(trim_spec(content)));
    let q2 = if seq_starts_with(q1, fence()) && seq_ends_with(q1, fence()) {
        trim_spec(trim_end_matches_spec(trim_start_matches_spec(q1, fence().push('\n')), seq!['\n'] + fence()))
    } else {
        q1
    };
    lemma_first_occurrence_spec(q2, seq!['\n']);
    match first_occurrence(q2, seq!['\n']) {
        Some(p) => {
            let head = q2.take(p);
            assert forall|j: int| 0 <= j < head.len() implies head[j] != '\n' by {
                if head[j] == '\n' {
                    assert(q2.subrange(j, j + 1) =~= seq!['\n']);
                    assert(occurs_at(q2, seq!['\n'], j));
                }
            }
            lemma_trim_part(head);
            let (a, b) = choose|a: int, b: int| 0 <= a <= b <= head.len() && trim_spec(head) == head.subrange(a, b);
            assert forall|i: int| 0 <= i < clean_spec(content).len() implies clean_spec(content)[i] != '\n' by {
                assert(clean_spec(content)[i] == head[a + i]);
            }
        },
        None => {
            assert forall|i: int| 0 <= i < q2.len() implies q2[i] != '\n' by {
                if q2[i] == '\n' {
                    assert(q2.subrange(i, i + 1) =~= seq!['\n']);
                    assert(occurs_at(q2, seq!['\n'], i));
                }
            }
        },
    }
}

/// Cleans the model's answer into one query line; an answer that is empty
/// once cleaned is refused.
pub fn clean_llm_output(content: &str) -> (r: Result<String, NL2QError>)
    ensures
        r matches Ok(q) ==> q@ == clean_spec(content@) && q@.len() > 0,
        r matches Ok(q) ==> forall|i: int| 0 <= i < q@.len() ==> q@[i] != '\n',
        r is Err ==> (r matches Err(NL2QError::Empty)) && clean_spec(content@).len() == 0,
{
    proof {
        lemma_clean_one_line(content@);
    }
    let q0 = trim(content);
    let stripped = strip_think_sections(q0.as_str());
    let q1 = chars_of(stripped.as_str());
    let q1 = trim_chars(&q1);
    let fence_v: Vec<char> = vec!['`', '`', '`'];
    assert(fence_v@ =~= fence());
    let n = q1.len();
    let fenced = n >= 3 && occurs_at_start_end(&q1, &fence_v);
    let q2 = if fenced {
        let open_v: Vec<char> = vec!['`', '`', '`', '\n'];
        let close_v: Vec<char> = vec!['\n', '`', '`', '`'];
        assert(open_v@ =~= fence().push('\n'));
        assert(close_v@ =~= seq!['\n'] + fence());
        let a = trim_start_matches_chars(&q1, &open_v);
        let b = trim_end_matches_chars(&a, &close_v);
        trim_chars(&b)
    } else {
        q1
    };
    let newline: Vec<char> = vec!['\n'];
    assert(newline@ =~= seq!['\n']);
    let q3 = match find_from(&q2, &newline, 0) {
        Some(p) => {
            proof {
                lemma_first_occurrence(q2@, seq!['\n'], p as int);
            }
            let head = chars_between(&q2, 0, p);
            assert(head@ =~= q2@.take(p as int));
            trim_chars(&head)
        },
        None => {
            proof {
                lemma_no_occurrence(q2@, seq!['\n']);
            }
            q2
        },
    };
    if q3.len() == 0 {
        return Err(NL2QError::Empty);
    }
    Ok(string_of(q3.as_slice()))
}

/// Whether `v` both begins and ends with `p`.
fn occurs_at_start_end(v: &Vec<char>, p: &Vec<char>) -> (r: bool)
    requires
        p@.len() <= v@.len(),
    ensures
        r == (seq_starts_with(v@, p@) && seq_ends_with(v@, p@)),
{
    let a = crate::text::occurs_at_exec(v, p, 0);
    let b = crate::text::occurs_at_exec(v, p, v.len() - p.len());
    a && b
}

} // verus!
