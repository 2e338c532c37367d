use vstd::prelude::*;
use vstd::string::StrSliceExecFns;
use crate::text::{chars_of, string_of, normalize_chars, take_chars, normalized, prefix, chars_eq, cat};

verus! {

/// One turn of a conversation.
pub struct ChatMessage {
    pub role: String,
    pub content: String,
}

impl View for ChatMessage {
    type V = (Seq<char>, Seq<char>);

    open spec fn view(&self) -> (Seq<char>, Seq<char>) {
        (self.role@, self.content@)
    }
}

/// Options of the assembler; a value that is not positive selects the default.
#[derive(Clone, Copy, Debug)]
pub struct ContextConfig {
    pub max_chars: i64,
    pub max_history: i64,
    pub max_memory_items: i64,
    pub max_canvas_chars: i64,
    pub max_memory_chars: i64,
    pub max_summary_chars: i64,
}

/// The limits in force, each defaulted and clamped to its range.
#[derive(Clone, Copy, Debug)]
pub struct Limits {
    pub max_chars: usize,
    pub max_history: usize,
    pub max_memory_items: usize,
    pub max_canvas_chars: usize,
    pub max_memory_chars: usize,
    pub max_summary_chars: usize,
}

pub open spec fn views(s: Seq<ChatMessage>) -> Seq<(Seq<char>, Seq<char>)> {
    s.map_values(|m: ChatMessage| m@)
}

/// `n` raised to `a`, then lowered to `b`.
pub open spec fn clamped(n: int, a: int, b: int) -> int {
    let m = if n >= a { n } else { a };
    if m <= b { m } else { b }
}

/// A configured value: the default where it is not positive, then clamped.
pub open spec fn setting(v: i64, d: int, lo: int, hi: int) -> int {
    clamped(if v > 0 { v as int } else { d }, lo, hi)
}

pub open spec fn config_or_zero(c: Option<ContextConfig>) -> ContextConfig {
    match c {
        Some(x) => x,
        None => ContextConfig {
            max_chars: 0,
            max_history: 0,
            max_memory_items: 0,
            max_canvas_chars: 0,
            max_memory_chars: 0,
            max_summary_chars: 0,
        },
    }
}

pub open spec fn limits_of(c: Option<ContextConfig>) -> Limits {
    let k = config_or_zero(c);
    Limits {
        max_chars: setting(k.max_chars, 12000, 2000, 50000) as usize,
        max_history: setting(k.max_history, 16, 4, 64) as usize,
        max_memory_items: setting(k.max_memory_items, 6, 0, 30) as usize,
        max_canvas_chars: setting(k.max_canvas_chars, 1200, 0, 8000) as usize,
        max_memory_chars: setting(k.max_memory_chars, 1200, 0, 8000) as usize,
        max_summary_chars: setting(k.max_summary_chars, 600, 0, 4000) as usize,
    }
}

pub open spec fn summary_heading() -> Seq<char> {
    "【长期记忆摘要】\n"@
}

pub open spec fn memory_heading() -> Seq<char> {
    "【长期记忆（检索命中）】\n"@
}

pub open spec fn canvas_heading() -> Seq<char> {
    "【当前项目上下文】\n"@
}

/// Sum of the character counts of the contents.
pub open spec fn total_chars(ms: Seq<(Seq<char>, Seq<char>)>) -> int
    decreases ms.len(),
{
    if ms.len() == 0 {
        0
    } else {
        total_chars(ms.drop_last()) + ms.last().1.len()
    }
}

/// The lines kept within `budget` characters, `used` being spent already:
/// each line normalized, empty ones skipped, and the first that does not fit
/// ends the list.
pub open spec fn kept_lines(lines: Seq<Seq<char>>, budget: nat, used: nat) -> Seq<Seq<char>>
    decreases lines.len(),
{
    if lines.len() == 0 {
        seq![]
    } else {
        let t = normalized(lines[0]);
        if t.len() == 0 {
            kept_lines(lines.drop_first(), budget, used)
        } else if used + t.len() > budget {
            seq![]
        } else {
            seq![t] + kept_lines(lines.drop_first(), budget, used + t.len())
        }
    }
}

/// The lines joined with "\n" between them.
pub open spec fn joined(s: Seq<Seq<char>>) -> Seq<char>
    decreases s.len(),
{
    if s.len() == 0 {
        seq![]
    } else if s.len() == 1 {
        s[0]
    } else {
        joined(s.drop_last()) + seq!['\n'] + s.last()
    }
}

/// Bullet lines for memory contents: each normalized, empty ones skipped,
/// cut to 260 characters.
pub open spec fn memory_lines(ms: Seq<Seq<char>>) -> Seq<Seq<char>>
    decreases ms.len(),
{
    if ms.len() == 0 {
        seq![]
    } else {
        let h = memory_lines(ms.drop_last());
        let c = normalized(ms.last());
        if c.len() == 0 {
            h
        } else {
            h.push(seq!['-', ' '] + prefix(c, 260))
        }
    }
}

/// A turn that history keeps: a role other than "system" and some content.
pub open spec fn kept_turn(m: (Seq<char>, Seq<char>)) -> bool {
    m.0.len() > 0 && m.0 != "system"@ && normalized(m.1).len() > 0
}

/// The kept turns, in order, with normalized content.
pub open spec fn history(c: Seq<(Seq<char>, Seq<char>)>) -> Seq<(Seq<char>, Seq<char>)>
    decreases c.len(),
{
    if c.len() == 0 {
        seq![]
    } else {
        let h = history(c.drop_last());
        if kept_turn(c.last()) {
            h.push((c.last().0, normalized(c.last().1)))
        } else {
            h
        }
    }
}

pub open spec fn head_of<A>(s: Seq<A>, n: nat) -> Seq<A> {
    if s.len() <= n {
        s
    } else {
        s.take(n as int)
    }
}

pub open spec fn last_n<A>(s: Seq<A>, n: nat) -> Seq<A> {
    if s.len() <= n {
        s
    } else {
        s.subrange(s.len() - n, s.len() as int)
    }
}

pub open spec fn opt(b: bool, m: (Seq<char>, Seq<char>)) -> Seq<(Seq<char>, Seq<char>)> {
    if b {
        seq![m]
    } else {
        seq![]
    }
}

/// The retrieved memories packed into one text.
pub open spec fn packed_memory(items: Seq<Seq<char>>, l: Limits) -> Seq<char> {
    joined(
        kept_lines(
            memory_lines(head_of(items, l.max_memory_items as nat)),
            l.max_memory_chars as nat,
            0,
        ),
    )
}

pub open spec fn full_tier(
    user: Seq<char>,
    sys: Seq<char>,
    summary: Seq<char>,
    items: Seq<Seq<char>>,
    canvas: Seq<char>,
    hist: Seq<(Seq<char>, Seq<char>)>,
    l: Limits,
) -> Seq<(Seq<char>, Seq<char>)> {
    let packed = packed_memory(items, l);
    opt(sys.len() > 0, ("system"@, sys)) + opt(
        summary.len() > 0 && l.max_summary_chars > 0,
        ("system"@, summary_heading() + prefix(summary, l.max_summary_chars as nat)),
    ) + opt(
        items.len() > 0 && l.max_memory_items > 0 && l.max_memory_chars > 0 && packed.len() > 0,
        ("system"@, memory_heading() + packed),
    ) + opt(
        canvas.len() > 0 && l.max_canvas_chars > 0,
        ("system"@, canvas_heading() + prefix(canvas, l.max_canvas_chars as nat)),
    ) + last_n(hist, l.max_history as nat) + seq![("user"@, user)]
}

pub open spec fn reduced_tier(
    user: Seq<char>,
    sys: Seq<char>,
    summary: Seq<char>,
    canvas: Seq<char>,
    hist: Seq<(Seq<char>, Seq<char>)>,
    l: Limits,
) -> Seq<(Seq<char>, Seq<char>)> {
    let keep = clamped(l.max_history as int / 2, 2, l.max_history as int);
    let cap = if l.max_summary_chars <= 360 { l.max_summary_chars as nat } else { 360 };
    opt(sys.len() > 0, ("system"@, sys)) + opt(
        summary.len() > 0 && l.max_summary_chars > 0,
        ("system"@, summary_heading() + prefix(summary, cap)),
    ) + opt(canvas.len() > 0, ("system"@, canvas_heading() + prefix(canvas, 360))) + last_n(
        hist,
        keep as nat,
    ) + seq![("user"@, user)]
}

pub open spec fn minimal_tier(user: Seq<char>, sys: Seq<char>) -> Seq<(Seq<char>, Seq<char>)> {
    opt(sys.len() > 0, ("system"@, sys)) + seq![("user"@, user)]
}

/// The message list: the first tier whose total fits `max_chars`, and the
/// minimal one where neither larger tier fits.
pub open spec fn assembled(
    user_text: Seq<char>,
    system_prompt: Seq<char>,
    conversation: Seq<(Seq<char>, Seq<char>)>,
    memory_summary: Seq<char>,
    memory_items: Seq<Seq<char>>,
    canvas_context: Seq<char>,
    l: Limits,
) -> Seq<(Seq<char>, Seq<char>)> {
    let user = normalized(user_text);
    let sys = normalized(system_prompt);
    let summary = normalized(memory_summary);
    let canvas = normalized(canvas_context);
    let hist = history(conversation);
    let full = full_tier(user, sys, summary, memory_items, canvas, hist, l);
    let reduced = reduced_tier(user, sys, summary, canvas, hist, l);
    if total_chars(full) <= l.max_chars {
        full
    } else if total_chars(reduced) <= l.max_chars {
        reduced
    } else {
        minimal_tier(user, sys)
    }
}

/// `n` raised to at least `a`, then lowered to at most `b`.
pub fn clamp_i64(n: i64, a: i64, b: i64) -> (r: i64)
    ensures
        r == clamped(n as int, a as int, b as int),
{
    let m = if n >= a { n } else { a };
    if m <= b { m } else { b }
}

fn setting_of(v: i64, d: i64, lo: i64, hi: i64) -> (r: usize)
    requires
        0 <= lo <= hi <= 50000,
    ensures
        r == setting(v, d as int, lo as int, hi as int),
{
    clamp_i64(if v > 0 { v } else { d }, lo, hi) as usize
}

/// The limits in force for `config`.
pub fn limits(config: Option<ContextConfig>) -> (l: Limits)
    ensures
        l == limits_of(config),
{
    let k = match config {
        Some(x) => x,
        None => ContextConfig {
            max_chars: 0,
            max_history: 0,
            max_memory_items: 0,
            max_canvas_chars: 0,
            max_memory_chars: 0,
            max_summary_chars: 0,
        },
    };
    Limits {
        max_chars: setting_of(k.max_chars, 12000, 2000, 50000),
        max_history: setting_of(k.max_history, 16, 4, 64),
        max_memory_items: setting_of(k.max_memory_items, 6, 0, 30),
        max_canvas_chars: setting_of(k.max_canvas_chars, 1200, 0, 8000),
        max_memory_chars: setting_of(k.max_memory_chars, 1200, 0, 8000),
        max_summary_chars: setting_of(k.max_summary_chars, 600, 0, 4000),
    }
}

/// Total number of characters in the contents, saturating at `usize::MAX`.
pub fn estimate_chars(messages: &Vec<ChatMessage>) -> (r: usize)
    ensures
        r == (if total_chars(views(messages@)) <= usize::MAX {
            total_chars(views(messages@))
        } else {
            usize::MAX as int
        }),
{
    let mut sum: usize = 0;
    let mut i: usize = 0;
    while i < messages.len()
        invariant
            i <= messages@.len(),
            sum == (if total_chars(views(messages@.take(i as int))) <= usize::MAX {
                total_chars(views(messages@.take(i as int)))
            } else {
                usize::MAX as int
            }),
        decreases messages@.len() - i,
    {
        let len = messages[i].content.as_str().unicode_len();
        proof {
            let p = views(messages@.take(i as int + 1));
            assert(p.drop_last() =~= views(messages@.take(i as int)));
            assert(p.last() == messages@[i as int]@);
            assert(total_chars(p) == total_chars(views(messages@.take(i as int))) + len);
            assert(total_chars(views(messages@.take(i as int))) >= 0) by {
                lemma_total_nonneg(views(messages@.take(i as int)));
            }
        }
        if sum > usize::MAX - len {
            sum = usize::MAX;
        } else {
            sum = sum + len;
        }
        i = i + 1;
    }
    assert(messages@.take(i as int) =~= messages@);
    sum
}

fn joined_exec(s: &Vec<Vec<char>>) -> (r: Vec<char>)
    ensures
        r@ == joined(s@.map_values(|v: Vec<char>| v@)),
{
    let ghost vs = s@.map_values(|v: Vec<char>| v@);
    let mut out: Vec<char> = Vec::new();
    let mut j: usize = 0;
    assert(vs.take(0) =~= Seq::<Seq<char>>::empty());
    while j < s.len()
        invariant
            vs == s@.map_values(|v: Vec<char>| v@),
            j <= s@.len(),
            out@ == joined(vs.take(j as int)),
        decreases s@.len() - j,
    {
        assert(vs.take(j as int + 1).drop_last() =~= vs.take(j as int));
        if j == 0 {
            out = s[0].clone();
            assert(vs.take(1) =~= seq![vs[0]]);
        } else {
            out.push('\n');
            out = cat(&out, &s[j]);
        }
        j = j + 1;
    }
    assert(vs.take(j as int) =~= vs);
    out
}

/// The lines normalized, empty ones skipped, kept while their total length
/// stays within `max_chars`, and joined with "\n".
pub fn compact_lines(lines: &Vec<String>, max_chars: usize) -> (r: String)
    ensures
        r@ == joined(kept_lines(lines@.map_values(|s: String| s@), max_chars as nat, 0)),
{
    let ghost all = lines@.map_values(|s: String| s@);
    let n = lines.len();
    let mut out: Vec<Vec<char>> = Vec::new();
    let mut used: usize = 0;
    let mut i: usize = 0;
    assert(all.subrange(0, n as int) =~= all);
    assert(out@.map_values(|v: Vec<char>| v@) + kept_lines(all, max_chars as nat, 0) =~= kept_lines(all, max_chars as nat, 0));
    while i < n
        invariant
            n == lines@.len(),
            all == lines@.map_values(|s: String| s@),
            i <= n,
            used <= max_chars,
            out@.map_values(|v: Vec<char>| v@) + kept_lines(all.subrange(i as int, n as int), max_chars as nat, used as nat)
                == kept_lines(all, max_chars as nat, 0),
        decreases n - i,
    {
        let ghost rest = all.subrange(i as int, n as int);
        assert(rest.drop_first() =~= all.subrange(i as int + 1, n as int));
        assert(rest[0] == lines@[i as int]@);
        let raw = chars_of(lines[i].as_str());
        let t = normalize_chars(&raw);
        if t.len() == 0 {
            i = i + 1;
        } else if t.len() > max_chars || used > max_chars - t.len() {
            assert(kept_lines(rest, max_chars as nat, used as nat) =~= Seq::<Seq<char>>::empty());
            assert(out@.map_values(|v: Vec<char>| v@) =~= kept_lines(all, max_chars as nat, 0));
            let r = joined_exec(&out);
            return string_of(&r);
        } else {
            let ghost before = out@.map_values(|v: Vec<char>| v@);
            used = used + t.len();
            out.push(t);
            assert(out@.map_values(|v: Vec<char>| v@) =~= before + seq![t@]);
            i = i + 1;
        }
    }
    assert(all.subrange(n as int, n as int) =~= Seq::<Seq<char>>::empty());
    assert(out@.map_values(|v: Vec<char>| v@) =~= kept_lines(all, max_chars as nat, 0));
    let r = joined_exec(&out);
    string_of(&r)
}

fn msg_of(role: &str, content: &Vec<char>) -> (m: ChatMessage)
    ensures
        m@ == (role@, content@),
{
    let r = chars_of(role);
    ChatMessage { role: string_of(&r), content: string_of(content) }
}

fn copy_msg(m: &ChatMessage) -> (c: ChatMessage)
    ensures
        c@ == m@,
{
    ChatMessage { role: m.role.clone(), content: m.content.clone() }
}

fn push_msg(out: &mut Vec<ChatMessage>, m: ChatMessage)
    ensures
        views(final(out)@) == views(old(out)@).push(m@),
{
    out.push(m);
    assert(views(final(out)@) =~= views(old(out)@).push(m@));
}

fn extend_msgs(out: &mut Vec<ChatMessage>, src: &Vec<ChatMessage>, from: usize)
    requires
        from <= src@.len(),
    ensures
        views(final(out)@) == views(old(out)@) + views(src@).subrange(from as int, src@.len() as int),
{
    let mut i: usize = from;
    while i < src.len()
        invariant
            from <= i <= src@.len(),
            views(out@) == views(old(out)@) + views(src@).subrange(from as int, i as int),
        decreases src@.len() - i,
    {
        let c = copy_msg(&src[i]);
        push_msg(out, c);
        i = i + 1;
        assert(views(out@) =~= views(old(out)@) + views(src@).subrange(from as int, i as int));
    }
}

fn memory_lines_exec(items: &Vec<String>, n: usize) -> (r: Vec<String>)
    ensures
        r@.map_values(|s: String| s@) == memory_lines(head_of(items@.map_values(|s: String| s@), n as nat)),
{
    let ghost all = items@.map_values(|s: String| s@);
    let m = if items.len() <= n { items.len() } else { n };
    let mut out: Vec<String> = Vec::new();
    let mut i: usize = 0;
    let mut dash: Vec<char> = Vec::new();
    dash.push('-');
    dash.push(' ');
    assert(all.take(0) =~= Seq::<Seq<char>>::empty());
    assert(out@.map_values(|s: String| s@) =~= Seq::<Seq<char>>::empty());
    while i < m
        invariant
            m <= items@.len(),
            all == items@.map_values(|s: String| s@),
            dash@ == seq!['-', ' '],
            i <= m,
            out@.map_values(|s: String| s@) == memory_lines(all.take(i as int)),
        decreases m - i,
    {
        assert(all.take(i as int + 1).drop_last() =~= all.take(i as int));
        assert(all.take(i as int + 1).last() == items@[i as int]@);
        let raw = chars_of(items[i].as_str());
        let c = normalize_chars(&raw);
        if c.len() > 0 {
            let snippet = take_chars(&c, 260);
            let line = cat(&dash, &snippet);
            let ghost before = out@.map_values(|s: String| s@);
            out.push(string_of(&line));
            assert(out@.map_values(|s: String| s@) =~= before.push(line@));
        }
        i = i + 1;
    }
    assert(all.take(m as int) =~= head_of(all, n as nat));
    out
}

fn history_exec(conv: &Vec<ChatMessage>) -> (r: Vec<ChatMessage>)
    ensures
        views(r@) == history(views(conv@)),
{
    let ghost all = views(conv@);
    let sys = chars_of("system");
    let mut out: Vec<ChatMessage> = Vec::new();
    let mut i: usize = 0;
    assert(all.take(0) =~= Seq::<(Seq<char>, Seq<char>)>::empty());
    assert(views(out@) =~= Seq::<(Seq<char>, Seq<char>)>::empty());
    while i < conv.len()
        invariant
            all == views(conv@),
            sys@ == "system"@,
            i <= conv@.len(),
            views(out@) == history(all.take(i as int)),
        decreases conv@.len() - i,
    {
        assert(all.take(i as int + 1).drop_last() =~= all.take(i as int));
        assert(all.take(i as int + 1).last() == conv@[i as int]@);
        let role = chars_of(conv[i].role.as_str());
        let raw = chars_of(conv[i].content.as_str());
        let content = normalize_chars(&raw);
        if role.len() > 0 && !chars_eq(&role, &sys) && content.len() > 0 {
            let m = ChatMessage { role: conv[i].role.clone(), content: string_of(&content) };
            push_msg(&mut out, m);
        }
        i = i + 1;
    }
    assert(all.take(i as int) =~= all);
    out
}

/// The first tier: everything, each part within its own limit.
fn full_tier_exec(
    user: &Vec<char>,
    sys: &Vec<char>,
    summary: &Vec<char>,
    items: &Vec<String>,
    canvas: &Vec<char>,
    hist: &Vec<ChatMessage>,
    l: Limits,
) -> (r: Vec<ChatMessage>)
    ensures
        views(r@) == full_tier(
            user@,
            sys@,
            summary@,
            items@.map_values(|s: String| s@),
            canvas@,
            views(hist@),
            l,
        ),
{
    let mut out: Vec<ChatMessage> = Vec::new();
    let ghost e0 = views(out@);
    assert(e0 =~= Seq::<(Seq<char>, Seq<char>)>::empty());
    if sys.len() > 0 {
        push_msg(&mut out, msg_of("system", sys));
    }
    let ghost e1 = views(out@);
    assert(e1 =~= opt(sys@.len() > 0, ("system"@, sys@)));
    if summary.len() > 0 && l.max_summary_chars > 0 {
        let h = chars_of("【长期记忆摘要】\n");
        let part = take_chars(summary, l.max_summary_chars);
        let c = cat(&h, &part);
        push_msg(&mut out, msg_of("system", &c));
    }
    let ghost e2 = views(out@);
    assert(e2 =~= e1 + opt(
        summary@.len() > 0 && l.max_summary_chars > 0,
        ("system"@, summary_heading() + prefix(summary@, l.max_summary_chars as nat)),
    ));
    let ghost packed_spec = packed_memory(items@.map_values(|s: String| s@), l);
    if items.len() > 0 && l.max_memory_items > 0 && l.max_memory_chars > 0 {
        let lines = memory_lines_exec(items, l.max_memory_items);
        let packed = compact_lines(&lines, l.max_memory_chars);
        let pc = chars_of(packed.as_str());
        assert(pc@ == packed_spec);
        if pc.len() > 0 {
            let h = chars_of("【长期记忆（检索命中）】\n");
            let c = cat(&h, &pc);
            push_msg(&mut out, msg_of("system", &c));
        }
    }
    let ghost e3 = views(out@);
    assert(e3 =~= e2 + opt(
        items@.len() > 0 && l.max_memory_items > 0 && l.max_memory_chars > 0 && packed_spec.len() > 0,
        ("system"@, memory_heading() + packed_spec),
    ));
    if canvas.len() > 0 && l.max_canvas_chars > 0 {
        let h = chars_of("【当前项目上下文】\n");
        let part = take_chars(canvas, l.max_canvas_chars);
        let c = cat(&h, &part);
        push_msg(&mut out, msg_of("system", &c));
    }
    let ghost e4 = views(out@);
    assert(e4 =~= e3 + opt(
        canvas@.len() > 0 && l.max_canvas_chars > 0,
        ("system"@, canvas_heading() + prefix(canvas@, l.max_canvas_chars as nat)),
    ));
    let from = if hist.len() <= l.max_history { 0 } else { hist.len() - l.max_history };
    extend_msgs(&mut out, hist, from);
    assert(views(hist@).subrange(from as int, hist@.len() as int) =~= last_n(views(hist@), l.max_history as nat));
    push_msg(&mut out, msg_of("user", user));
    out
}

/// The second tier: no retrieved memories, a shorter history, smaller caps.
fn reduced_tier_exec(
    user: &Vec<char>,
    sys: &Vec<char>,
    summary: &Vec<char>,
    canvas: &Vec<char>,
    hist: &Vec<ChatMessage>,
    l: Limits,
) -> (r: Vec<ChatMessage>)
    requires
        l.max_history <= 64,
    ensures
        views(r@) == reduced_tier(user@, sys@, summary@, canvas@, views(hist@), l),
{
    let mut out: Vec<ChatMessage> = Vec::new();
    let ghost e0 = views(out@);
    assert(e0 =~= Seq::<(Seq<char>, Seq<char>)>::empty());
    if sys.len() > 0 {
        push_msg(&mut out, msg_of("system", sys));
    }
    let ghost e1 = views(out@);
    assert(e1 =~= opt(sys@.len() > 0, ("system"@, sys@)));
    let cap = if l.max_summary_chars <= 360 { l.max_summary_chars } else { 360 };
    if summary.len() > 0 && l.max_summary_chars > 0 {
        let h = chars_of("【长期记忆摘要】\n");
        let part = take_chars(summary, cap);
        let c = cat(&h, &part);
        push_msg(&mut out, msg_of("system", &c));
    }
    let ghost e2 = views(out@);
    assert(e2 =~= e1 + opt(
        summary@.len() > 0 && l.max_summary_chars > 0,
        ("system"@, summary_heading() + prefix(summary@, cap as nat)),
    ));
    if canvas.len() > 0 {
        let h = chars_of("【当前项目上下文】\n");
        let part = take_chars(canvas, 360);
        let c = cat(&h, &part);
        push_msg(&mut out, msg_of("system", &c));
    }
    let ghost e3 = views(out@);
    assert(e3 =~= e2 + opt(canvas@.len() > 0, ("system"@, canvas_heading() + prefix(canvas@, 360))));
    let keep = clamp_i64(l.max_history as i64 / 2, 2, l.max_history as i64) as usize;
    let from = if hist.len() <= keep { 0 } else { hist.len() - keep };
    extend_msgs(&mut out, hist, from);
    assert(views(hist@).subrange(from as int, hist@.len() as int) =~= last_n(views(hist@), keep as nat));
    push_msg(&mut out, msg_of("user", user));
    out
}

/// Builds the message list for a model call from the current user text, the
/// system prompt, the conversation so far, a memory summary, retrieved
/// memory contents and a canvas description. The first of three tiers whose
/// total content fits `max_chars` is returned; the last tier, system prompt
/// and user text, is returned whatever its size.
pub fn build_chat_messages(
    user_text: String,
    system_prompt: String,
    conversation: Vec<ChatMessage>,
    memory_summary: String,
    memory_items: Vec<String>,
    canvas_context: String,
    config: Option<ContextConfig>,
) -> (r: Vec<ChatMessage>)
    ensures
        views(r@) == assembled(
            user_text@,
            system_prompt@,
            views(conversation@),
            memory_summary@,
            memory_items@.map_values(|s: String| s@),
            canvas_context@,
            limits_of(config),
        ),
{
    let l = limits(config);
    let user = normalize_chars(&chars_of(user_text.as_str()));
    let sys = normalize_chars(&chars_of(system_prompt.as_str()));
    let summary = normalize_chars(&chars_of(memory_summary.as_str()));
    let canvas = normalize_chars(&chars_of(canvas_context.as_str()));
    let hist = history_exec(&conversation);
    let full = full_tier_exec(&user, &sys, &summary, &memory_items, &canvas, &hist, l);
    if estimate_chars(&full) <= l.max_chars {
        return full;
    }
    let reduced = reduced_tier_exec(&user, &sys, &summary, &canvas, &hist, l);
    if estimate_chars(&reduced) <= l.max_chars {
        return reduced;
    }
    let mut minimal: Vec<ChatMessage> = Vec::new();
    assert(views(minimal@) =~= Seq::<(Seq<char>, Seq<char>)>::empty());
    if sys.len() > 0 {
        push_msg(&mut minimal, msg_of("system", &sys));
    }
    push_msg(&mut minimal, msg_of("user", &user));
    assert(views(minimal@) =~= minimal_tier(user@, sys@));
    minimal
}

/// Assembly is a function of its inputs: two builds from the same inputs
/// give the same messages.
pub proof fn lemma_build_deterministic(
    user_text: Seq<char>,
    system_prompt: Seq<char>,
    conversation: Seq<(Seq<char>, Seq<char>)>,
    memory_summary: Seq<char>,
    memory_items: Seq<Seq<char>>,
    canvas_context: Seq<char>,
    config: Option<ContextConfig>,
    first: Seq<ChatMessage>,
    second: Seq<ChatMessage>,
)
    requires
        views(first) == assembled(
            user_text,
            system_prompt,
            conversation,
            memory_summary,
            memory_items,
            canvas_context,
            limits_of(config),
        ),
        views(second) == assembled(
            user_text,
            system_prompt,
            conversation,
            memory_summary,
            memory_items,
            canvas_context,
            limits_of(config),
        ),
    ensures
        views(first) == views(second),
{
}

/// The user's turn is never dropped nor cut: whatever the budget, the last
/// message is the whole normalized user text, and a non-empty system prompt
/// comes first.
pub proof fn lemma_user_turn_kept(
    user_text: Seq<char>,
    system_prompt: Seq<char>,
    conversation: Seq<(Seq<char>, Seq<char>)>,
    memory_summary: Seq<char>,
    memory_items: Seq<Seq<char>>,
    canvas_context: Seq<char>,
    l: Limits,
)
    ensures
        ({
            let r = assembled(
                user_text,
                system_prompt,
                conversation,
                memory_summary,
                memory_items,
                canvas_context,
                l,
            );
            &&& r.len() >= 1
            &&& r.last() == ("user"@, normalized(user_text))
            &&& normalized(system_prompt).len() > 0 ==> r[0] == ("system"@, normalized(
                system_prompt,
            ))
        }),
{
}

proof fn lemma_total_nonneg(ms: Seq<(Seq<char>, Seq<char>)>)
    ensures
        total_chars(ms) >= 0,
    decreases ms.len(),
{
    if ms.len() > 0 {
        lemma_total_nonneg(ms.drop_last());
    }
}

} // verus!
