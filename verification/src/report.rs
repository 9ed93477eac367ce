//! The text of the usage reports: grouped numbers, durations, shortened
//! session ids, the summary block and the three tables.

use vstd::prelude::*;
use vstd::utf8::{decode_utf8, encode_utf8, encode_utf8_decode_utf8, is_char_boundary};
use crate::table::{draw_table, rendered_table, utf8_full_style, cells_view};
use crate::text::{
    chars_of, decimal_digits, i64_to_decimal, push_char, push_chars, push_repeated, repeat_char,
    signed_decimal, u64_to_decimal, unsigned_abs,
};

verus! {

/// Digits with a `,` before every group of three counted from the right.
pub open spec fn group_thousands(d: Seq<char>) -> Seq<char>
    decreases d.len(),
{
    if d.len() <= 3 {
        d
    } else {
        group_thousands(d.subrange(0, d.len() - 3)) + seq![','] + d.subrange(
            d.len() - 3,
            d.len() as int,
        )
    }
}

/// An integer with thousands separators, such as `-12,450`.
pub open spec fn fmt_num_spec(n: int) -> Seq<char> {
    if n < 0 {
        seq!['-'] + group_thousands(decimal_digits((-n) as nat))
    } else {
        group_thousands(decimal_digits(n as nat))
    }
}

fn push_grouped(s: &mut String, d: &Vec<char>, end: usize)
    requires
        end <= d@.len(),
    ensures
        final(s)@ == old(s)@ + group_thousands(d@.subrange(0, end as int)),
    decreases end,
{
    let ghost p = d@.subrange(0, end as int);
    if end <= 3 {
        push_chars(s, &d.as_slice()[0..end]);
    } else {
        push_grouped(s, d, end - 3);
        assert(p.subrange(0, p.len() - 3) =~= d@.subrange(0, end - 3));
        push_char(s, ',');
        push_chars(s, &d.as_slice()[end - 3..end]);
        assert(p.subrange(p.len() - 3, p.len() as int) =~= d@.subrange(end - 3, end as int));
        assert(s@ =~= old(s)@ + group_thousands(p));
    }
}

/// Renders a whole number of tokens or lines with thousands separators.
pub fn fmt_num(n: i64) -> (r: String)
    ensures
        r@ == fmt_num_spec(n as int),
{
    let digits = u64_to_decimal(unsigned_abs(n));
    let d = chars_of(digits.as_str());
    let mut s = String::new();
    if n < 0 {
        push_char(&mut s, '-');
    }
    push_grouped(&mut s, &d, d.len());
    assert(d@.subrange(0, d@.len() as int) =~= d@);
    assert(n < 0 ==> s@ =~= seq!['-'] + group_thousands(decimal_digits((-n) as nat)));
    s
}

/// A duration as hours, minutes and seconds, leaving out leading zero
/// parts: `1h 0m 5s`, `23m 15s`, `42s`, `0s`.
pub open spec fn fmt_duration_spec(total: nat) -> Seq<char> {
    let h = total / 3600;
    let m = (total % 3600) / 60;
    let s = total % 60;
    if total == 0 {
        seq!['0', 's']
    } else if h > 0 {
        decimal_digits(h) + seq!['h', ' '] + decimal_digits(m) + seq!['m', ' '] + decimal_digits(s)
            + seq!['s']
    } else if m > 0 {
        decimal_digits(m) + seq!['m', ' '] + decimal_digits(s) + seq!['s']
    } else {
        decimal_digits(s) + seq!['s']
    }
}

/// Renders a whole number of seconds as hours, minutes and seconds.
pub fn fmt_duration(total: u64) -> (r: String)
    ensures
        r@ == fmt_duration_spec(total as nat),
{
    let mut out = String::new();
    if total == 0 {
        push_char(&mut out, '0');
        push_char(&mut out, 's');
        assert(out@ =~= seq!['0', 's']);
        return out;
    }
    let h = total / 3600;
    let m = (total % 3600) / 60;
    let s = total % 60;
    if h > 0 {
        out = u64_to_decimal(h);
        push_char(&mut out, 'h');
        push_char(&mut out, ' ');
        crate::text::push_decimal(&mut out, m);
        push_char(&mut out, 'm');
        push_char(&mut out, ' ');
    } else if m > 0 {
        out = u64_to_decimal(m);
        push_char(&mut out, 'm');
        push_char(&mut out, ' ');
    }
    crate::text::push_decimal(&mut out, s);
    push_char(&mut out, 's');
    assert(out@ =~= fmt_duration_spec(total as nat));
    out
}

/// A session id cut to its first eight bytes followed by `..`, when it is
/// longer than eight bytes.
pub open spec fn short_session_spec(id: Seq<char>) -> Seq<char> {
    let b = encode_utf8(id);
    if b.len() > 8 {
        decode_utf8(b.subrange(0, 8)) + seq!['.', '.']
    } else {
        id
    }
}

/// The id can be cut after its eighth byte (it is not longer, or a
/// character starts there).
pub open spec fn session_id_cuttable(id: Seq<char>) -> bool {
    encode_utf8(id).len() <= 8 || is_char_boundary(encode_utf8(id), 8)
}

/// Shortens a session id for the session table.
pub fn short_session_id(id: &str) -> (r: String)
    requires
        session_id_cuttable(id@),
        encode_utf8(id@).len() <= usize::MAX,
    ensures
        r@ == short_session_spec(id@),
{
    if id.len() > 8 {
        let (head, _) = id.split_at(8);
        let mut r = head.to_owned();
        proof {
            encode_utf8_decode_utf8(head@);
        }
        push_char(&mut r, '.');
        push_char(&mut r, '.');
        assert(r@ =~= short_session_spec(id@));
        r
    } else {
        id.to_owned()
    }
}

/// `s` followed by spaces up to `w` characters (`{:<w}`).
pub open spec fn pad_right(s: Seq<char>, w: nat) -> Seq<char> {
    if s.len() < w {
        s + repeat_char(' ', (w - s.len()) as nat)
    } else {
        s
    }
}

/// `s` preceded by spaces up to `w` characters (`{:>w}`).
pub open spec fn pad_left(s: Seq<char>, w: nat) -> Seq<char> {
    if s.len() < w {
        repeat_char(' ', (w - s.len()) as nat) + s
    } else {
        s
    }
}

/// A line of the summary: the name left-aligned in 28 characters, a
/// space, the value right-aligned in 10.
pub open spec fn summary_line_spec(name: Seq<char>, value: Seq<char>) -> Seq<char> {
    pad_right(name, 28) + seq![' '] + pad_left(value, 10)
}

pub fn summary_line(name: &str, value: &str) -> (r: String)
    ensures
        r@ == summary_line_spec(name@, value@),
{
    let mut r = name.to_owned();
    let nl = name.unicode_len();
    if nl < 28 {
        push_repeated(&mut r, ' ', 28 - nl);
    }
    push_char(&mut r, ' ');
    let vl = value.unicode_len();
    if vl < 10 {
        push_repeated(&mut r, ' ', 10 - vl);
    }
    let v = chars_of(value);
    push_chars(&mut r, v.as_slice());
    assert(r@ =~= summary_line_spec(name@, value@));
    r
}

/// The figures of a usage summary, as the report shows them: token and
/// line counts and the active time in whole units, the cost already
/// written out.
pub struct UsageFigures {
    pub input_tokens: i64,
    pub output_tokens: i64,
    pub cache_read_tokens: i64,
    pub cache_creation_tokens: i64,
    pub cost: String,
    pub sessions: i64,
    pub lines_added: i64,
    pub lines_removed: i64,
    pub active_time_secs: u64,
}

/// The rule under the summary's title: forty `─`.
pub open spec fn summary_rule() -> Seq<char> {
    repeat_char('─', 40)
}

/// The lines of a usage summary, in order.
pub open spec fn summary_lines_spec(label: Seq<char>, f: UsageFigures) -> Seq<Seq<char>> {
    seq![
        label,
        summary_rule(),
        summary_line_spec("Tokens (input)"@, fmt_num_spec(f.input_tokens as int)),
        summary_line_spec("Tokens (output)"@, fmt_num_spec(f.output_tokens as int)),
        summary_line_spec("Tokens (cache read)"@, fmt_num_spec(f.cache_read_tokens as int)),
        summary_line_spec("Tokens (cache creation)"@, fmt_num_spec(f.cache_creation_tokens as int)),
        summary_line_spec("Cost"@, f.cost@),
        summary_line_spec("Sessions"@, signed_decimal(f.sessions as int)),
        summary_line_spec("Lines added"@, fmt_num_spec(f.lines_added as int)),
        summary_line_spec("Lines removed"@, fmt_num_spec(f.lines_removed as int)),
        summary_line_spec("Active time"@, fmt_duration_spec(f.active_time_secs as nat)),
    ]
}

/// The lines of the usage summary titled `label`.
pub fn summary_lines(label: &str, f: &UsageFigures) -> (r: Vec<String>)
    ensures
        cells_view(r@) == summary_lines_spec(label@, *f),
{
    let mut r: Vec<String> = Vec::new();
    r.push(label.to_owned());
    let mut rule = String::new();
    push_repeated(&mut rule, '─', 40);
    assert(rule@ =~= summary_rule());
    r.push(rule);
    r.push(summary_line("Tokens (input)", fmt_num(f.input_tokens).as_str()));
    r.push(summary_line("Tokens (output)", fmt_num(f.output_tokens).as_str()));
    r.push(summary_line("Tokens (cache read)", fmt_num(f.cache_read_tokens).as_str()));
    r.push(summary_line("Tokens (cache creation)", fmt_num(f.cache_creation_tokens).as_str()));
    r.push(summary_line("Cost", f.cost.as_str()));
    r.push(summary_line("Sessions", i64_to_decimal(f.sessions).as_str()));
    r.push(summary_line("Lines added", fmt_num(f.lines_added).as_str()));
    r.push(summary_line("Lines removed", fmt_num(f.lines_removed).as_str()));
    r.push(summary_line("Active time", fmt_duration(f.active_time_secs).as_str()));
    assert(cells_view(r@) =~= summary_lines_spec(label@, *f));
    r
}

/// One day of the history table.
pub struct HistoryFigures {
    pub date: String,
    pub input_tokens: i64,
    pub output_tokens: i64,
    pub cache_read_tokens: i64,
    pub cost: String,
    pub sessions: i64,
}

/// One model of the model table.
pub struct ModelFigures {
    pub model: String,
    pub input_tokens: i64,
    pub output_tokens: i64,
    pub cost: String,
}

/// One session of the session table.
pub struct SessionFigures {
    pub session_id: String,
    pub date: String,
    pub total_tokens: i64,
    pub cost: String,
    pub duration_secs: u64,
}

pub open spec fn history_header() -> Seq<Seq<char>> {
    seq!["Date"@, "Input"@, "Output"@, "Cache Read"@, "Cost"@, "Sessions"@]
}

pub open spec fn history_cells_spec(r: HistoryFigures) -> Seq<Seq<char>> {
    seq![
        r.date@,
        fmt_num_spec(r.input_tokens as int),
        fmt_num_spec(r.output_tokens as int),
        fmt_num_spec(r.cache_read_tokens as int),
        r.cost@,
        signed_decimal(r.sessions as int),
    ]
}

pub open spec fn model_header() -> Seq<Seq<char>> {
    seq!["Model"@, "Input"@, "Output"@, "Cost"@]
}

pub open spec fn model_cells_spec(r: ModelFigures) -> Seq<Seq<char>> {
    seq![
        r.model@,
        fmt_num_spec(r.input_tokens as int),
        fmt_num_spec(r.output_tokens as int),
        r.cost@,
    ]
}

pub open spec fn session_header() -> Seq<Seq<char>> {
    seq!["Session"@, "Date"@, "Tokens"@, "Cost"@, "Duration"@]
}

pub open spec fn session_cells_spec(r: SessionFigures) -> Seq<Seq<char>> {
    seq![
        short_session_spec(r.session_id@),
        r.date@,
        fmt_num_spec(r.total_tokens as int),
        r.cost@,
        fmt_duration_spec(r.duration_secs as nat),
    ]
}

/// A session's id can be shown: it can be cut after its eighth byte.
pub open spec fn session_row_showable(r: SessionFigures) -> bool {
    session_id_cuttable(r.session_id@) && encode_utf8(r.session_id@).len() <= usize::MAX
}

pub fn history_cells(r: &HistoryFigures) -> (c: Vec<String>)
    ensures
        cells_view(c@) == history_cells_spec(*r),
{
    let mut c: Vec<String> = Vec::new();
    c.push(r.date.clone());
    c.push(fmt_num(r.input_tokens));
    c.push(fmt_num(r.output_tokens));
    c.push(fmt_num(r.cache_read_tokens));
    c.push(r.cost.clone());
    c.push(i64_to_decimal(r.sessions));
    assert(cells_view(c@) =~= history_cells_spec(*r));
    c
}

pub fn model_cells(r: &ModelFigures) -> (c: Vec<String>)
    ensures
        cells_view(c@) == model_cells_spec(*r),
{
    let mut c: Vec<String> = Vec::new();
    c.push(r.model.clone());
    c.push(fmt_num(r.input_tokens));
    c.push(fmt_num(r.output_tokens));
    c.push(r.cost.clone());
    assert(cells_view(c@) =~= model_cells_spec(*r));
    c
}

pub fn session_cells(r: &SessionFigures) -> (c: Vec<String>)
    requires
        session_row_showable(*r),
    ensures
        cells_view(c@) == session_cells_spec(*r),
{
    let mut c: Vec<String> = Vec::new();
    c.push(short_session_id(r.session_id.as_str()));
    c.push(r.date.clone());
    c.push(fmt_num(r.total_tokens));
    c.push(r.cost.clone());
    c.push(fmt_duration(r.duration_secs));
    assert(cells_view(c@) =~= session_cells_spec(*r));
    c
}

/// The daily history table, or a notice when there is no day to show.
pub fn render_history(rows: &Vec<HistoryFigures>) -> (s: String)
    ensures
        rows@.len() == 0 ==> s@ == "No data for the selected period."@,
        rows@.len() > 0 ==> s@ == rendered_table(
            utf8_full_style(),
            Some(history_header()),
            rows@.map_values(|r: HistoryFigures| history_cells_spec(r)),
        ),
{
    if rows.len() == 0 {
        return "No data for the selected period.".to_owned();
    }
    let mut header: Vec<String> = Vec::new();
    header.push("Date".to_owned());
    header.push("Input".to_owned());
    header.push("Output".to_owned());
    header.push("Cache Read".to_owned());
    header.push("Cost".to_owned());
    header.push("Sessions".to_owned());
    assert(cells_view(header@) =~= history_header());
    let mut body: Vec<Vec<String>> = Vec::new();
    let mut i: usize = 0;
    while i < rows.len()
        invariant
            i <= rows@.len(),
            body@.len() == i,
            body@.map_values(|r: Vec<String>| cells_view(r@)) == rows@.subrange(0, i as int).map_values(
                |r: HistoryFigures| history_cells_spec(r),
            ),
        decreases rows@.len() - i,
    {
        let ghost prev = body@;
        body.push(history_cells(&rows[i]));
        i = i + 1;
        assert forall|j: int| 0 <= j < i implies #[trigger] cells_view(body@[j]@)
            == history_cells_spec(rows@[j]) by {
            if j < i - 1 {
                assert(prev.map_values(|r: Vec<String>| cells_view(r@))[j] == rows@.subrange(
                    0,
                    i - 1,
                ).map_values(|r: HistoryFigures| history_cells_spec(r))[j]);
            }
        }
        assert(body@.map_values(|r: Vec<String>| cells_view(r@)) =~= rows@.subrange(0, i as int).map_values(
            |r: HistoryFigures| history_cells_spec(r),
        ));
    }
    assert(rows@.subrange(0, rows@.len() as int) =~= rows@);
    draw_table(header, body)
}

/// The per-model table, or a notice when no model was recorded.
pub fn render_by_model(rows: &Vec<ModelFigures>) -> (s: String)
    ensures
        rows@.len() == 0 ==> s@ == "No model data recorded."@,
        rows@.len() > 0 ==> s@ == rendered_table(
            utf8_full_style(),
            Some(model_header()),
            rows@.map_values(|r: ModelFigures| model_cells_spec(r)),
        ),
{
    if rows.len() == 0 {
        return "No model data recorded.".to_owned();
    }
    let mut header: Vec<String> = Vec::new();
    header.push("Model".to_owned());
    header.push("Input".to_owned());
    header.push("Output".to_owned());
    header.push("Cost".to_owned());
    assert(cells_view(header@) =~= model_header());
    let mut body: Vec<Vec<String>> = Vec::new();
    let mut i: usize = 0;
    while i < rows.len()
        invariant
            i <= rows@.len(),
            body@.len() == i,
            body@.map_values(|r: Vec<String>| cells_view(r@)) == rows@.subrange(0, i as int).map_values(
                |r: ModelFigures| model_cells_spec(r),
            ),
        decreases rows@.len() - i,
    {
        let ghost prev = body@;
        body.push(model_cells(&rows[i]));
        i = i + 1;
        assert forall|j: int| 0 <= j < i implies #[trigger] cells_view(body@[j]@)
            == model_cells_spec(rows@[j]) by {
            if j < i - 1 {
                assert(prev.map_values(|r: Vec<String>| cells_view(r@))[j] == rows@.subrange(
                    0,
                    i - 1,
                ).map_values(|r: ModelFigures| model_cells_spec(r))[j]);
            }
        }
        assert(body@.map_values(|r: Vec<String>| cells_view(r@)) =~= rows@.subrange(0, i as int).map_values(
            |r: ModelFigures| model_cells_spec(r),
        ));
    }
    assert(rows@.subrange(0, rows@.len() as int) =~= rows@);
    draw_table(header, body)
}

/// The per-session table, or a notice when no session was recorded.
pub fn render_by_session(rows: &Vec<SessionFigures>) -> (s: String)
    requires
        forall|i: int| 0 <= i < rows@.len() ==> session_row_showable(#[trigger] rows@[i]),
    ensures
        rows@.len() == 0 ==> s@ == "No session data recorded."@,
        rows@.len() > 0 ==> s@ == rendered_table(
            utf8_full_style(),
            Some(session_header()),
            rows@.map_values(|r: SessionFigures| session_cells_spec(r)),
        ),
{
    if rows.len() == 0 {
        return "No session data recorded.".to_owned();
    }
    let mut header: Vec<String> = Vec::new();
    header.push("Session".to_owned());
    header.push("Date".to_owned());
    header.push("Tokens".to_owned());
    header.push("Cost".to_owned());
    header.push("Duration".to_owned());
    assert(cells_view(header@) =~= session_header());
    let mut body: Vec<Vec<String>> = Vec::new();
    let mut i: usize = 0;
    while i < rows.len()
        invariant
            i <= rows@.len(),
            body@.len() == i,
            forall|k: int| 0 <= k < rows@.len() ==> session_row_showable(#[trigger] rows@[k]),
            body@.map_values(|r: Vec<String>| cells_view(r@)) == rows@.subrange(0, i as int).map_values(
                |r: SessionFigures| session_cells_spec(r),
            ),
        decreases rows@.len() - i,
    {
        let ghost prev = body@;
        body.push(session_cells(&rows[i]));
        i = i + 1;
        assert forall|j: int| 0 <= j < i implies #[trigger] cells_view(body@[j]@)
            == session_cells_spec(rows@[j]) by {
            if j < i - 1 {
                assert(prev.map_values(|r: Vec<String>| cells_view(r@))[j] == rows@.subrange(
                    0,
                    i - 1,
                ).map_values(|r: SessionFigures| session_cells_spec(r))[j]);
            }
        }
        assert(body@.map_values(|r: Vec<String>| cells_view(r@)) =~= rows@.subrange(0, i as int).map_values(
            |r: SessionFigures| session_cells_spec(r),
        ));
    }
    assert(rows@.subrange(0, rows@.len() as int) =~= rows@);
    draw_table(header, body)
}

// ---- Laws ----------------------------------------------------------------

/// The characters of `s` other than `,`.
pub open spec fn without_commas(s: Seq<char>) -> Seq<char>
    decreases s.len(),
{
    if s.len() == 0 {
        Seq::empty()
    } else if s.last() == ',' {
        without_commas(s.drop_last())
    } else {
        without_commas(s.drop_last()).push(s.last())
    }
}

proof fn lemma_without_commas_concat(a: Seq<char>, b: Seq<char>)
    ensures
        without_commas(a + b) == without_commas(a) + without_commas(b),
    decreases b.len(),
{
    if b.len() == 0 {
        assert(a + b =~= a);
        assert(without_commas(a) + without_commas(b) =~= without_commas(a));
    } else {
        assert((a + b).drop_last() =~= a + b.drop_last());
        lemma_without_commas_concat(a, b.drop_last());
        if b.last() == ',' {
        } else {
            assert(without_commas(a + b) =~= without_commas(a) + without_commas(b));
        }
    }
}

proof fn lemma_without_commas_no_commas(s: Seq<char>)
    requires
        forall|i: int| 0 <= i < s.len() ==> s[i] != ',',
    ensures
        without_commas(s) == s,
    decreases s.len(),
{
    if s.len() > 0 {
        lemma_without_commas_no_commas(s.drop_last());
        assert(s.drop_last().push(s.last()) =~= s);
    }
}

proof fn lemma_decimal_digits_are_digits(n: nat)
    ensures
        forall|i: int| 0 <= i < decimal_digits(n).len() ==> crate::text::is_digit(
            #[trigger] decimal_digits(n)[i],
        ),
        decimal_digits(n).len() > 0,
    decreases n,
{
    if n >= 10 {
        lemma_decimal_digits_are_digits(n / 10);
    }
}

proof fn lemma_group_thousands_removes(d: Seq<char>)
    requires
        forall|i: int| 0 <= i < d.len() ==> d[i] != ',',
    ensures
        without_commas(group_thousands(d)) == d,
    decreases d.len(),
{
    if d.len() <= 3 {
        lemma_without_commas_no_commas(d);
    } else {
        let head = d.subrange(0, d.len() - 3);
        let tail = d.subrange(d.len() - 3, d.len() as int);
        lemma_group_thousands_removes(head);
        lemma_without_commas_concat(group_thousands(head) + seq![','], tail);
        lemma_without_commas_concat(group_thousands(head), seq![',']);
        assert(seq![','].drop_last() =~= Seq::<char>::empty());
        lemma_without_commas_no_commas(tail);
        assert(head + tail =~= d);
        assert(without_commas(Seq::<char>::empty()) =~= Seq::<char>::empty());
        assert(head + Seq::<char>::empty() =~= head);
    }
}

/// Thousands separators only: taking the commas out of a formatted number
/// gives back its plain decimal rendering.
pub proof fn lemma_fmt_num_commas_only(n: i64)
    ensures
        without_commas(fmt_num_spec(n as int)) == signed_decimal(n as int),
{
    let m: nat = if n < 0 { (-n) as nat } else { n as nat };
    lemma_decimal_digits_are_digits(m);
    lemma_group_thousands_removes(decimal_digits(m));
    if n < 0 {
        lemma_without_commas_concat(seq!['-'], group_thousands(decimal_digits(m)));
        assert(seq!['-'].drop_last() =~= Seq::<char>::empty());
        assert(seq!['-'].last() == '-');
        assert(without_commas(Seq::<char>::empty()) == Seq::<char>::empty());
        assert(Seq::<char>::empty().push('-') =~= seq!['-']);
        assert(without_commas(seq!['-']) =~= seq!['-']);
    }
}

/// Every group that a separator starts holds exactly three digits, and
/// the leading group holds one to three.
pub proof fn lemma_group_thousands_groups(d: Seq<char>)
    requires
        d.len() > 0,
    ensures
        d.len() > 3 ==> ({
            let g = group_thousands(d);
            &&& g.len() >= 4
            &&& g[g.len() - 4] == ','
            &&& g.subrange(g.len() - 3, g.len() as int) == d.subrange(
                d.len() - 3,
                d.len() as int,
            )
        }),
        d.len() <= 3 ==> group_thousands(d) == d,
{
}

/// The parts of a formatted duration add up to it: hours, minutes under
/// sixty and seconds under sixty.
pub proof fn lemma_duration_parts(total: nat)
    ensures
        (total / 3600) * 3600 + ((total % 3600) / 60) * 60 + total % 60 == total,
        (total % 3600) / 60 < 60,
        total % 60 < 60,
{
    assert((total / 3600) * 3600 + ((total % 3600) / 60) * 60 + total % 60 == total)
        by (nonlinear_arith);
}


/// A duration is written by its hours, minutes under sixty and seconds
/// under sixty, parts that add back to it: `1h 23m 45s` when there are
/// hours, `23m 45s` when only minutes, `45s` when only seconds, `0s` for
/// nothing.
pub proof fn lemma_duration_text_of_parts(total: nat, h: nat, m: nat, s: nat)
    requires
        h * 3600 + m * 60 + s == total,
        m < 60,
        s < 60,
    ensures
        h > 0 ==> fmt_duration_spec(total) == decimal_digits(h) + seq!['h', ' '] + decimal_digits(m)
            + seq!['m', ' '] + decimal_digits(s) + seq!['s'],
        h == 0 && m > 0 ==> fmt_duration_spec(total) == decimal_digits(m) + seq!['m', ' ']
            + decimal_digits(s) + seq!['s'],
        h == 0 && m == 0 && s > 0 ==> fmt_duration_spec(total) == decimal_digits(s) + seq!['s'],
        total == 0 ==> fmt_duration_spec(total) == seq!['0', 's'],
{
    let rest: int = (m * 60 + s) as int;
    assert(0 <= rest < 3600);
    vstd::arithmetic::div_mod::lemma_fundamental_div_mod_converse(total as int, 3600, h as int, rest);
    vstd::arithmetic::div_mod::lemma_fundamental_div_mod_converse(rest, 60, m as int, s as int);
    assert(h * 3600 == (h * 60) * 60) by (nonlinear_arith);
    vstd::arithmetic::div_mod::lemma_fundamental_div_mod_converse(
        total as int,
        60,
        (h * 60 + m) as int,
        s as int,
    );
}

} // verus!
