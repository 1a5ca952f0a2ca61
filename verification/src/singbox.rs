use vstd::prelude::*;
use crate::text::chars_of;

verus! {

broadcast use vstd::string::group_string_axioms;

/// How many of sing-box's last log lines are kept for a crash report.
pub const RECENT_LINES_CAPACITY: usize = 10;

/// The last lines that sing-box wrote to its error stream, oldest first,
/// at most [`RECENT_LINES_CAPACITY`] of them.
pub struct RecentLines {
    lines: Vec<String>,
}

impl View for RecentLines {
    type V = Seq<Seq<char>>;

    closed spec fn view(&self) -> Seq<Seq<char>> {
        self.lines.deep_view()
    }
}

/// The lines kept after `line` arrives: the oldest one is dropped when the
/// buffer is full.
pub open spec fn after_push(kept: Seq<Seq<char>>, line: Seq<char>) -> Seq<Seq<char>> {
    if kept.len() >= RECENT_LINES_CAPACITY {
        kept.drop_first().push(line)
    } else {
        kept.push(line)
    }
}

/// Lines joined with `sep` between them.
pub open spec fn join_lines(lines: Seq<Seq<char>>, sep: Seq<char>) -> Seq<char>
    decreases lines.len(),
{
    if lines.len() == 0 {
        Seq::empty()
    } else if lines.len() == 1 {
        lines[0]
    } else {
        join_lines(lines.drop_last(), sep) + sep + lines.last()
    }
}

impl RecentLines {
    #[verifier::type_invariant]
    spec fn within_capacity(self) -> bool {
        self.lines.len() <= RECENT_LINES_CAPACITY
    }

    pub fn new() -> (r: Self)
        ensures
            r@ == Seq::<Seq<char>>::empty(),
    {
        let r = RecentLines { lines: Vec::new() };
        assert(r.lines.deep_view() =~= Seq::<Seq<char>>::empty());
        r
    }

    /// The number of kept lines.
    pub fn len(&self) -> (n: usize)
        ensures
            n == self@.len(),
            n <= RECENT_LINES_CAPACITY,
    {
        proof {
            use_type_invariant(self);
        }
        self.lines.len()
    }

    /// Records a line, dropping the oldest one when the buffer is full.
    pub fn push(&mut self, line: String)
        ensures
            final(self)@ == after_push(old(self)@, line@),
    {
        proof {
            use_type_invariant(&*self);
        }
        let ghost before = self.lines.deep_view();
        let mut lines: Vec<String> = Vec::new();
        std::mem::swap(&mut lines, &mut self.lines);
        assert(lines.len() <= RECENT_LINES_CAPACITY);
        if lines.len() >= RECENT_LINES_CAPACITY {
            lines.remove(0);
            assert(lines.deep_view() =~= before.drop_first());
        } else {
            assert(lines.deep_view() =~= before);
        }
        assert(lines.len() < RECENT_LINES_CAPACITY);
        crate::text::push_text(&mut lines, line);
        self.lines = lines;
    }

    /// The kept lines joined by newlines.
    pub fn joined(&self) -> (s: String)
        ensures
            s@ == join_lines(self@, "\n"@),
    {
        join_texts(&self.lines, "\n")
    }
}

/// The texts joined with `sep` between them.
pub fn join_texts(lines: &Vec<String>, sep: &str) -> (s: String)
    ensures
        s@ == join_lines(lines.deep_view(), sep@),
{
    let mut s = String::new();
    let mut i: usize = 0;
    while i < lines.len()
        invariant
            i <= lines.len(),
            s@ == join_lines(lines.deep_view().take(i as int), sep@),
        decreases lines.len() - i,
    {
        let ghost prev = lines.deep_view().take(i as int);
        assert(lines.deep_view().take(i + 1).drop_last() =~= prev);
        if i > 0 {
            s.append(sep);
        } else {
            assert(s@ =~= Seq::<char>::empty());
        }
        s.append(lines[i].as_str());
        proof {
            if i == 0 {
                assert(s@ =~= lines.deep_view().take(1)[0]);
            }
        }
        i = i + 1;
    }
    assert(lines.deep_view().take(lines.len() as int) =~= lines.deep_view());
    s
}

pub open spec fn missing_binary_message_spec(checked: Seq<Seq<char>>) -> Seq<char> {
    "Бинарник sing-box не найден. Проверены пути:\n- "@ + join_lines(checked, "\n- "@)
}

/// The error given when `sing-box.exe` is at none of the `checked` paths:
/// the paths, one per line, each after `- `.
pub fn missing_binary_message(checked: &Vec<String>) -> (s: String)
    ensures
        s@ == missing_binary_message_spec(checked.deep_view()),
{
    let mut s = String::from_str("Бинарник sing-box не найден. Проверены пути:\n- ");
    let list = join_texts(checked, "\n- ");
    s.append(list.as_str());
    s
}

pub open spec fn missing_wintun_message_spec(path: Seq<char>) -> Seq<char> {
    "Файл wintun.dll не найден по пути: "@ + path
        + ". Он необходим для работы VPN. Пожалуйста, переустановите приложение."@
}

/// The error given when `wintun.dll` is missing next to `sing-box.exe`;
/// `path` is where it was looked for.
pub fn missing_wintun_message(path: &str) -> (s: String)
    ensures
        s@ == missing_wintun_message_spec(path@),
{
    let mut s = String::from_str("Файл wintun.dll не найден по пути: ");
    s.append(path);
    s.append(". Он необходим для работы VPN. Пожалуйста, переустановите приложение.");
    s
}

/// `s` holds `p` somewhere.
pub open spec fn contains_text(s: Seq<char>, p: Seq<char>) -> bool {
    exists|i: int| 0 <= i && i + p.len() <= s.len() && #[trigger] s.subrange(i, i + p.len()) == p
}

fn find_text(v: &Vec<char>, p: &str) -> (b: bool)
    ensures
        b == contains_text(v@, p@),
{
    let pc = chars_of(p);
    if pc.len() > v.len() {
        return false;
    }
    let mut i: usize = 0;
    while i <= v.len() - pc.len()
        invariant
            pc@ == p@,
            pc.len() <= v.len(),
            i <= v.len() - pc.len() + 1,
            forall|k: int| 0 <= k < i ==> #[trigger] v@.subrange(k, k + pc@.len()) != pc@,
        decreases v.len() - i,
    {
        let mut j: usize = 0;
        while j < pc.len() && v[i + j] == pc[j]
            invariant
                i + pc.len() <= v.len(),
                j <= pc.len(),
                forall|m: int| 0 <= m < j ==> v@[i + m] == pc@[m],
            decreases pc.len() - j,
        {
            j = j + 1;
        }
        if j == pc.len() {
            assert(v@.subrange(i as int, i + pc@.len()) =~= pc@);
            return true;
        }
        assert(v@.subrange(i as int, i + pc@.len())[j as int] != pc@[j as int]);
        i = i + 1;
    }
    assert forall|k: int| 0 <= k && k + p@.len() <= v@.len() implies #[trigger] v@.subrange(k, k + p@.len()) != p@ by {
        assert(k < i);
    }
    false
}

/// A log line that reports an error: it mentions `FATAL`, `fatal`, `ERROR`
/// or `error`.
pub open spec fn is_error_line_spec(line: Seq<char>) -> bool {
    contains_text(line, "FATAL"@) || contains_text(line, "fatal"@) || contains_text(line, "ERROR"@)
        || contains_text(line, "error"@)
}

/// Whether a line that sing-box logged reports an error.
pub fn is_error_line(line: &str) -> (b: bool)
    ensures
        b == is_error_line_spec(line@),
{
    let v = chars_of(line);
    find_text(&v, "FATAL") || find_text(&v, "fatal") || find_text(&v, "ERROR") || find_text(&v, "error")
}

/// The recent-log part of a crash report: empty when no line was kept.
pub open spec fn log_tail(lines: Seq<Seq<char>>) -> Seq<char> {
    if lines.len() == 0 {
        Seq::empty()
    } else {
        "\nПоследние логи:\n"@ + join_lines(lines, "\n"@)
    }
}

pub open spec fn crash_report_spec(status: Seq<char>, lines: Seq<Seq<char>>) -> Seq<char> {
    "sing-box неожиданно завершился (crash). Код: "@ + status
        + "\nВозможно, конфликт с другим VPN (порт уже занят) или ошибка в конфигурации. Закройте другие VPN-приложения и попробуйте снова."@
        + log_tail(lines)
}

/// The message shown when sing-box exits on its own with the exit status
/// `status` (as text), followed by the lines it logged last.
pub fn crash_report(status: &str, recent: &RecentLines) -> (s: String)
    ensures
        s@ == crash_report_spec(status@, recent@),
{
    let mut s = String::from_str("sing-box неожиданно завершился (crash). Код: ");
    s.append(status);
    s.append("\nВозможно, конфликт с другим VPN (порт уже занят) или ошибка в конфигурации. Закройте другие VPN-приложения и попробуйте снова.");
    if recent.len() > 0 {
        s.append("\nПоследние логи:\n");
        let j = recent.joined();
        s.append(j.as_str());
    }
    s
}

/// What a status check of the sing-box process found.
pub enum ChildStatus {
    /// No process was started (or it was already forgotten).
    NotStarted,
    /// The process is still running.
    Running,
    /// The process has exited; its exit status as text.
    Exited(String),
    /// The status could not be read.
    Unreadable,
}

/// What to do after a status check.
pub struct StatusDecision {
    /// Whether sing-box counts as running.
    pub running: bool,
    /// Whether to drop the handle of the exited process.
    pub forget_process: bool,
    /// The crash report to send to the window, if any.
    pub report: Option<String>,
}

/// The decision a status check leads to: only a running process counts as
/// running; an exited one is forgotten and, when `notify` is set, reported
/// with the recent log lines; an unreadable status keeps the handle.
pub fn decide_status(status: &ChildStatus, notify: bool, recent: &RecentLines) -> (d: StatusDecision)
    ensures
        d.running == (status is Running),
        d.forget_process == (status is Exited),
        match status {
            ChildStatus::Exited(code) => if notify {
                d.report is Some && d.report->Some_0@ == crash_report_spec(code@, recent@)
            } else {
                d.report is None
            },
            _ => d.report is None,
        },
{
    match status {
        ChildStatus::NotStarted => StatusDecision { running: false, forget_process: false, report: None },
        ChildStatus::Running => StatusDecision { running: true, forget_process: false, report: None },
        ChildStatus::Exited(code) => StatusDecision {
            running: false,
            forget_process: true,
            report: if notify { Some(crash_report(code.as_str(), recent)) } else { None },
        },
        ChildStatus::Unreadable => StatusDecision { running: false, forget_process: false, report: None },
    }
}

/// The lines kept after pushing `lines` in order onto `kept`.
pub open spec fn push_all(kept: Seq<Seq<char>>, lines: Seq<Seq<char>>) -> Seq<Seq<char>>
    decreases lines.len(),
{
    if lines.len() == 0 {
        kept
    } else {
        after_push(push_all(kept, lines.drop_last()), lines.last())
    }
}

/// The buffer is a sliding window: starting empty, after any lines have
/// been pushed it holds exactly the last ten of them (all of them when
/// there are fewer), in order.
pub proof fn law_recent_lines_window(lines: Seq<Seq<char>>)
    ensures
        push_all(Seq::empty(), lines) == lines.skip(
            if lines.len() > 10 { lines.len() - 10 } else { 0 },
        ),
    decreases lines.len(),
{
    if lines.len() > 0 {
        let init = lines.drop_last();
        law_recent_lines_window(init);
        let prev = init.skip(if init.len() > RECENT_LINES_CAPACITY { init.len() - RECENT_LINES_CAPACITY } else { 0 });
        if prev.len() >= RECENT_LINES_CAPACITY {
            assert(prev.drop_first().push(lines.last()) =~= lines.skip(lines.len() - RECENT_LINES_CAPACITY));
        } else {
            assert(prev.push(lines.last()) =~= lines.skip(0));
        }
    } else {
        assert(lines.skip(0) =~= lines);
    }
}


proof fn lemma_contains_at(a: Seq<char>, w: Seq<char>, b: Seq<char>)
    ensures
        contains_text(a + w + b, w),
{
    let s = a + w + b;
    assert(s.subrange(a.len() as int, (a.len() + w.len()) as int) =~= w);
}

proof fn lemma_not_contains_without_first(s: Seq<char>, w: Seq<char>)
    requires
        w.len() > 0,
        !s.contains(w[0]),
    ensures
        !contains_text(s, w),
{
    if contains_text(s, w) {
        let i = choose|i: int| 0 <= i && i + w.len() <= s.len() && #[trigger] s.subrange(i, i + w.len()) == w;
        assert(s.subrange(i, i + w.len())[0] == s[i]);
    }
}

/// A line is an error line when it mentions `FATAL`, `fatal`, `ERROR` or
/// `error` anywhere; a line without any `F`, `f`, `E` or `e` never is.
pub proof fn law_error_lines(a: Seq<char>, b: Seq<char>, line: Seq<char>)
    ensures
        is_error_line_spec(a + "FATAL"@ + b),
        is_error_line_spec(a + "fatal"@ + b),
        is_error_line_spec(a + "ERROR"@ + b),
        is_error_line_spec(a + "error"@ + b),
        !line.contains('F') && !line.contains('f') && !line.contains('E') && !line.contains('e')
            ==> !is_error_line_spec(line),
{
    lemma_contains_at(a, "FATAL"@, b);
    lemma_contains_at(a, "fatal"@, b);
    lemma_contains_at(a, "ERROR"@, b);
    lemma_contains_at(a, "error"@, b);
    reveal_strlit("FATAL");
    reveal_strlit("fatal");
    reveal_strlit("ERROR");
    reveal_strlit("error");
    if !line.contains('F') && !line.contains('f') && !line.contains('E') && !line.contains('e') {
        lemma_not_contains_without_first(line, "FATAL"@);
        lemma_not_contains_without_first(line, "fatal"@);
        lemma_not_contains_without_first(line, "ERROR"@);
        lemma_not_contains_without_first(line, "error"@);
    }
}

/// A crash report names the exit status right after its fixed opening, and
/// ends with the recent log lines, one per line, when any were kept (with
/// its fixed advice otherwise).
pub proof fn law_crash_report_carries_status_and_lines(status: Seq<char>, lines: Seq<Seq<char>>)
    ensures
        ({
            let opening = "sing-box неожиданно завершился (crash). Код: "@;
            let r = crash_report_spec(status, lines);
            &&& r.len() >= opening.len() + status.len()
            &&& r.subrange(0, opening.len() as int) == opening
            &&& r.subrange(opening.len() as int, (opening.len() + status.len()) as int) == status
            &&& lines.len() > 0 ==> crate::text::ends_with(r, join_lines(lines, "\n"@))
            &&& lines.len() == 0 ==> crate::text::ends_with(r, "\nВозможно, конфликт с другим VPN (порт уже занят) или ошибка в конфигурации. Закройте другие VPN-приложения и попробуйте снова."@)
        }),
{
    let opening = "sing-box неожиданно завершился (crash). Код: "@;
    let advice = "\nВозможно, конфликт с другим VPN (порт уже занят) или ошибка в конфигурации. Закройте другие VPN-приложения и попробуйте снова."@;
    let r = crash_report_spec(status, lines);
    let head = opening + status + advice;
    assert(r.subrange(0, opening.len() as int) =~= opening);
    assert(r.subrange(opening.len() as int, (opening.len() + status.len()) as int) =~= status);
    if lines.len() > 0 {
        let j = join_lines(lines, "\n"@);
        assert(r =~= head + "\nПоследние логи:\n"@ + j);
        assert(r.subrange(r.len() - j.len(), r.len() as int) =~= j);
    } else {
        assert(r =~= head);
        assert(r.subrange(r.len() - advice.len(), r.len() as int) =~= advice);
    }
}

} // verus!
