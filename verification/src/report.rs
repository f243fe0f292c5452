//! Markdown report rendering.

use vstd::prelude::*;

use crate::date::{iso_date, Date};
use crate::text::{chars_of, push_char, string_from_chars, u64_to_decimal, decimal};

verus! {

/// `parts` joined with `sep` between neighbours.
pub open spec fn join(parts: Seq<Seq<char>>, sep: Seq<char>) -> Seq<char>
    decreases parts.len(),
{
    if parts.len() == 0 {
        Seq::empty()
    } else if parts.len() == 1 {
        parts[0]
    } else {
        join(parts.drop_last(), sep) + sep + parts.last()
    }
}

/// All of `parts`, one after another.
pub open spec fn concat(parts: Seq<Seq<char>>) -> Seq<char>
    decreases parts.len(),
{
    if parts.len() == 0 {
        Seq::empty()
    } else {
        concat(parts.drop_last()) + parts.last()
    }
}

/// The characters of each string.
pub open spec fn views(strings: Seq<String>) -> Seq<Seq<char>> {
    strings.map_values(|s: String| s@)
}

/// The characters of each string slice.
pub open spec fn str_views(strings: Seq<&str>) -> Seq<Seq<char>> {
    strings.map_values(|s: &str| s@)
}

/// `s` repeated `n` times.
pub open spec fn repeat(s: Seq<char>, n: nat) -> Seq<char>
    decreases n,
{
    if n == 0 {
        Seq::empty()
    } else {
        repeat(s, (n - 1) as nat) + s
    }
}

/// Characters that Unicode classes as white space (what `char::is_whitespace` accepts).
pub open spec fn is_whitespace(c: char) -> bool {
    ||| '\u{9}' <= c <= '\u{d}'
    ||| c == ' '
    ||| c == '\u{85}'
    ||| c == '\u{a0}'
    ||| c == '\u{1680}'
    ||| '\u{2000}' <= c <= '\u{200a}'
    ||| c == '\u{2028}'
    ||| c == '\u{2029}'
    ||| c == '\u{202f}'
    ||| c == '\u{205f}'
    ||| c == '\u{3000}'
}

/// `s` without its trailing white space.
pub open spec fn trim_end(s: Seq<char>) -> Seq<char>
    decreases s.len(),
{
    if s.len() > 0 && is_whitespace(s.last()) {
        trim_end(s.drop_last())
    } else {
        s
    }
}

pub(crate) fn is_whitespace_char(c: char) -> (ws: bool)
    ensures
        ws == is_whitespace(c),
{
    ('\u{9}' <= c && c <= '\u{d}') || c == ' ' || c == '\u{85}' || c == '\u{a0}' || c
        == '\u{1680}' || ('\u{2000}' <= c && c <= '\u{200a}') || c == '\u{2028}' || c
        == '\u{2029}' || c == '\u{202f}' || c == '\u{205f}' || c == '\u{3000}'
}

/// `text` without trailing white space.
pub fn trim_end_str(text: &str) -> (trimmed: String)
    ensures
        trimmed@ == trim_end(text@),
{
    let chars = chars_of(text);
    let mut end = chars.len();
    assert(chars@.take(end as int) =~= chars@);
    while end > 0 && is_whitespace_char(chars[end - 1])
        invariant
            end <= chars@.len(),
            trim_end(chars@) == trim_end(chars@.take(end as int)),
        decreases end,
    {
        assert(chars@.take(end as int).drop_last() =~= chars@.take(end - 1));
        end = end - 1;
    }
    assert(trim_end(chars@.take(end as int)) == chars@.take(end as int));
    string_from_chars(&chars.as_slice()[0..end])
}

/// Appends the parts of `parts` to `out`, separated by `sep`.
pub(crate) fn append_joined(out: &mut String, parts: &[String], sep: &str)
    ensures
        final(out)@ == old(out)@ + join(views(parts@), sep@),
{
    let ghost start = out@;
    for i in 0..parts.len()
        invariant
            out@ == start + join(views(parts@.take(i as int)), sep@),
    {
        let ghost before = views(parts@.take(i as int));
        let ghost after = views(parts@.take(i + 1));
        assert(after.drop_last() =~= before);
        assert(after.last() == parts@[i as int]@);
        if i > 0 {
            out.append(sep);
        } else {
            assert(before.len() == 0);
        }
        out.append(parts[i].as_str());
    }
    assert(parts@.take(parts@.len() as int) =~= parts@);
}

/// Appends the parts of `parts` to `out`, separated by `sep`.
fn append_joined_strs(out: &mut String, parts: &[&str], sep: &str)
    ensures
        final(out)@ == old(out)@ + join(str_views(parts@), sep@),
{
    let ghost start = out@;
    for i in 0..parts.len()
        invariant
            out@ == start + join(str_views(parts@.take(i as int)), sep@),
    {
        let ghost before = str_views(parts@.take(i as int));
        let ghost after = str_views(parts@.take(i + 1));
        assert(after.drop_last() =~= before);
        assert(after.last() == parts@[i as int]@);
        if i > 0 {
            out.append(sep);
        } else {
            assert(before.len() == 0);
        }
        out.append(parts[i]);
    }
    assert(parts@.take(parts@.len() as int) =~= parts@);
}

/// The heading section `#…# text` with `level` hashes.
pub open spec fn heading_section(text: Seq<char>, level: u8) -> Seq<char> {
    repeat(seq!['#'], level as nat) + seq![' '] + text + seq!['\n', '\n']
}

/// A text section: the text without trailing white space, then a blank line.
pub open spec fn text_section(text: Seq<char>) -> Seq<char> {
    trim_end(text) + seq!['\n', '\n']
}

/// One table row.
pub open spec fn table_row(cells: Seq<Seq<char>>) -> Seq<char> {
    seq!['|', ' '] + join(cells, seq![' ', '|', ' ']) + seq![' ', '|', '\n']
}

/// `columns` cells of `---`.
pub open spec fn rule_cells(columns: nat) -> Seq<Seq<char>> {
    Seq::new(columns, |i: int| seq!['-', '-', '-'])
}

/// The header separator line of a table with `columns` columns.
pub open spec fn table_rule(columns: nat) -> Seq<char> {
    seq!['|'] + join(rule_cells(columns), seq!['|']) + seq!['|', '\n']
}

/// The cell texts of each row.
pub open spec fn row_views(rows: Seq<Vec<String>>) -> Seq<Seq<Seq<char>>> {
    rows.map_values(|r: Vec<String>| views(r@))
}

/// The rendered line of each row.
pub open spec fn row_lines(rows: Seq<Seq<Seq<char>>>) -> Seq<Seq<char>> {
    rows.map_values(|r: Seq<Seq<char>>| table_row(r))
}

/// A table section: header, separator, one line per row, then a blank line.
pub open spec fn table_section(header: Seq<Seq<char>>, rows: Seq<Seq<Seq<char>>>) -> Seq<char> {
    table_row(header) + table_rule(header.len()) + concat(row_lines(rows)) + seq!['\n']
}

/// A fenced code block section.
pub open spec fn code_section(lang: Seq<char>, code: Seq<char>) -> Seq<char> {
    seq!['`', '`', '`'] + lang + seq!['\n'] + code + seq!['\n', '`', '`', '`', '\n', '\n']
}

/// The rendered document: the title line, a blank line, then every section in order.
pub open spec fn rendered(title: Seq<char>, sections: Seq<Seq<char>>) -> Seq<char> {
    seq!['#', ' '] + title + seq!['\n', '\n'] + concat(sections)
}

/// A Markdown document built section by section.
pub struct MarkdownReport {
    title: String,
    sections: Vec<String>,
}

impl MarkdownReport {
    /// The document title.
    pub closed spec fn title(&self) -> Seq<char> {
        self.title@
    }

    /// The sections added so far, in order.
    pub closed spec fn sections(&self) -> Seq<Seq<char>> {
        views(self.sections@)
    }

    /// An empty document with the given title.
    pub fn new(title: &str) -> (report: MarkdownReport)
        ensures
            report.title() == title@,
            report.sections() == Seq::<Seq<char>>::empty(),
    {
        let report = MarkdownReport { title: title.to_string(), sections: Vec::new() };
        assert(report.sections() =~= Seq::<Seq<char>>::empty());
        report
    }

    fn push_section(&mut self, section: String)
        ensures
            final(self).title() == old(self).title(),
            final(self).sections() == old(self).sections().push(section@),
    {
        self.sections.push(section);
        assert(views(self.sections@) =~= views(old(self).sections@).push(section@));
    }

    /// Adds a heading of the given level.
    pub fn add_heading(&mut self, text: &str, level: u8)
        ensures
            final(self).title() == old(self).title(),
            final(self).sections() == old(self).sections().push(heading_section(text@, level)),
    {
        let mut section = String::new();
        let mut i: u8 = 0;
        while i < level
            invariant
                i <= level,
                section@ == repeat(seq!['#'], i as nat),
            decreases level - i,
        {
            push_char(&mut section, '#');
            i = i + 1;
        }
        push_char(&mut section, ' ');
        section.append(text);
        push_char(&mut section, '\n');
        push_char(&mut section, '\n');
        assert(section@ =~= heading_section(text@, level));
        self.push_section(section);
    }

    /// Adds a paragraph; trailing white space of `text` is dropped.
    pub fn add_text(&mut self, text: &str)
        ensures
            final(self).title() == old(self).title(),
            final(self).sections() == old(self).sections().push(text_section(text@)),
    {
        let mut section = trim_end_str(text);
        push_char(&mut section, '\n');
        push_char(&mut section, '\n');
        assert(section@ =~= text_section(text@));
        self.push_section(section);
    }

    /// Adds a table; each row should have as many cells as the header.
    pub fn add_table(&mut self, header: &[&str], rows: &[Vec<String>])
        ensures
            final(self).title() == old(self).title(),
            final(self).sections() == old(self).sections().push(
                table_section(str_views(header@), row_views(rows@)),
            ),
    {
        proof {
            reveal_strlit("| ");
            reveal_strlit(" |\n");
            reveal_strlit(" | ");
            assert(" | "@ =~= seq![' ', '|', ' ']);
            assert("| "@ =~= seq!['|', ' ']);
            assert(" |\n"@ =~= seq![' ', '|', '\n']);
        }
        let mut section = String::new();
        section.append("| ");
        append_joined_strs(&mut section, header, " | ");
        section.append(" |\n");
        let ghost head = section@;
        assert(head =~= table_row(str_views(header@)));
        push_char(&mut section, '|');
        let ghost start = section@;
        for i in 0..header.len()
            invariant
                section@ == start + join(rule_cells(i as nat), seq!['|']),
        {
            let ghost before = rule_cells(i as nat);
            let ghost after = rule_cells((i + 1) as nat);
            assert(after.drop_last() =~= before);
            assert(after.last() == seq!['-', '-', '-']);
            if i > 0 {
                push_char(&mut section, '|');
            }
            push_char(&mut section, '-');
            push_char(&mut section, '-');
            push_char(&mut section, '-');
            proof {
                if i > 0 {
                    assert(section@ =~= start + join(before, seq!['|']) + seq!['|'] + seq![
                        '-',
                        '-',
                        '-',
                    ]);
                } else {
                    assert(section@ =~= start + seq!['-', '-', '-']);
                }
            }
        }
        push_char(&mut section, '|');
        push_char(&mut section, '\n');
        assert(section@ =~= table_row(str_views(header@)) + table_rule(header@.len()));
        let ghost table_head = section@;
        let ghost all_rows = row_views(rows@);
        for i in 0..rows.len()
            invariant
                all_rows == row_views(rows@),
                section@ == table_head + concat(row_lines(all_rows.take(i as int))),
                " | "@ == seq![' ', '|', ' '],
                "| "@ == seq!['|', ' '],
                " |\n"@ == seq![' ', '|', '\n'],
        {
            let ghost before = row_lines(all_rows.take(i as int));
            let ghost after = row_lines(all_rows.take(i + 1));
            assert(after.drop_last() =~= before);
            assert(all_rows.take(i + 1).last() == views(rows@[i as int]@));
            section.append("| ");
            append_joined(&mut section, rows[i].as_slice(), " | ");
            section.append(" |\n");
            assert(after.last() == table_row(views(rows@[i as int]@)));
            assert(section@ =~= table_head + concat(before) + after.last());
        }
        assert(all_rows.take(rows@.len() as int) =~= all_rows);
        push_char(&mut section, '\n');
        assert(section@ =~= table_section(str_views(header@), row_views(rows@)));
        self.push_section(section);
    }

    /// Adds a fenced code block.
    pub fn add_code_block(&mut self, lang: &str, code: &str)
        ensures
            final(self).title() == old(self).title(),
            final(self).sections() == old(self).sections().push(code_section(lang@, code@)),
    {
        let mut section = String::new();
        section.append("```");
        section.append(lang);
        push_char(&mut section, '\n');
        section.append(code);
        section.append("\n```\n\n");
        proof {
            reveal_strlit("```");
            reveal_strlit("\n```\n\n");
        }
        assert(section@ =~= code_section(lang@, code@));
        self.push_section(section);
    }

    /// The whole document.
    pub fn render(&self) -> (out: String)
        ensures
            out@ == rendered(self.title(), self.sections()),
    {
        let mut out = String::new();
        out.append("# ");
        out.append(self.title.as_str());
        push_char(&mut out, '\n');
        push_char(&mut out, '\n');
        proof {
            reveal_strlit("# ");
        }
        let ghost head = out@;
        assert(head =~= seq!['#', ' '] + self.title() + seq!['\n', '\n']);
        for i in 0..self.sections.len()
            invariant
                out@ == head + concat(views(self.sections@.take(i as int))),
        {
            let ghost before = views(self.sections@.take(i as int));
            let ghost after = views(self.sections@.take(i + 1));
            assert(after.drop_last() =~= before);
            out.append(self.sections[i].as_str());
        }
        assert(self.sections@.take(self.sections@.len() as int) =~= self.sections@);
        out
    }
}

/// Health-check result of one data source, for the data-quality page.
#[derive(Debug, Clone)]
pub struct SourceHealthLine {
    pub source: String,
    pub ok: bool,
    pub latency_ms: Option<u64>,
    pub error: Option<String>,
}

/// The cells of a data-quality row: source, pass/fail, latency, error (`—` when absent).
pub open spec fn health_cells(line: SourceHealthLine) -> Seq<Seq<char>> {
    seq![
        line.source@,
        if line.ok {
            "通过"@
        } else {
            "失败"@
        },
        match line.latency_ms {
            Some(ms) => decimal(ms as nat) + " ms"@,
            None => "—"@,
        },
        match line.error {
            Some(e) => e@,
            None => "—"@,
        },
    ]
}

/// Column titles of the candidate list.
pub open spec fn candidate_header() -> Seq<Seq<char>> {
    seq![
        "标的"@,
        "名称"@,
        "行业"@,
        "PE 分位"@,
        "PB 分位"@,
        "业绩拐点"@,
        "3 个月动量"@,
        "环境标签"@,
        "风险旗标"@,
        "入选理由"@,
    ]
}

/// Column titles of the data-quality table.
pub open spec fn health_header() -> Seq<Seq<char>> {
    seq!["数据源"@, "状态"@, "延迟"@, "错误"@]
}

/// The note that stands in for missing health-check results.
pub open spec fn missing_health_note() -> Seq<char> {
    "未提供数据源健康检查结果，本报告不将其视为通过。"@
}

/// The sections of the screening report: the candidate list, then the data-quality page
/// (source health, the missing-health note when there is no health data, then the notes).
pub open spec fn candidate_report_sections(
    candidate_rows: Seq<Seq<Seq<char>>>,
    health: Seq<SourceHealthLine>,
    notes: Seq<Seq<char>>,
) -> Seq<Seq<char>> {
    seq![
        heading_section("候选清单"@, 2),
        table_section(candidate_header(), candidate_rows),
        heading_section("数据质量"@, 2),
        table_section(health_header(), health.map_values(|l: SourceHealthLine| health_cells(l))),
    ] + (if health.len() == 0 {
        seq![text_section(missing_health_note())]
    } else {
        Seq::empty()
    }) + notes.map_values(|n: Seq<char>| text_section(n))
}

/// The title of the screening report.
pub open spec fn candidate_report_title() -> Seq<char> {
    "myfin 选股报告"@
}

fn health_row(line: &SourceHealthLine) -> (row: Vec<String>)
    ensures
        views(row@) == health_cells(*line),
{
    let mut row: Vec<String> = Vec::new();
    row.push(line.source.clone());
    row.push(if line.ok {
        "通过".to_string()
    } else {
        "失败".to_string()
    });
    row.push(
        match line.latency_ms {
            Some(ms) => {
                let mut text = u64_to_decimal(ms);
                text.append(" ms");
                text
            },
            None => "—".to_string(),
        },
    );
    row.push(
        match &line.error {
            Some(e) => e.clone(),
            None => "—".to_string(),
        },
    );
    assert(views(row@) =~= health_cells(*line));
    row
}

/// Renders the candidate list and the data-quality page. The candidate rows are the
/// formatted cells of each candidate; when no source health is supplied the page says
/// that this is not to be read as a pass.
pub fn candidate_markdown(
    candidate_rows: &[Vec<String>],
    source_health: &[SourceHealthLine],
    quality_notes: &[String],
) -> (markdown: String)
    ensures
        markdown@ == rendered(
            candidate_report_title(),
            candidate_report_sections(
                row_views(candidate_rows@),
                source_health@,
                views(quality_notes@),
            ),
        ),
{
    let mut markdown = MarkdownReport::new("myfin 选股报告");
    markdown.add_heading("候选清单", 2);
    let header = [
        "标的",
        "名称",
        "行业",
        "PE 分位",
        "PB 分位",
        "业绩拐点",
        "3 个月动量",
        "环境标签",
        "风险旗标",
        "入选理由",
    ];
    markdown.add_table(&header, candidate_rows);
    markdown.add_heading("数据质量", 2);
    let mut health_rows: Vec<Vec<String>> = Vec::new();
    for i in 0..source_health.len()
        invariant
            health_rows@.len() == i,
            forall|j: int|
                0 <= j < i ==> views(#[trigger] health_rows@[j]@) == health_cells(
                    source_health@[j],
                ),
    {
        health_rows.push(health_row(&source_health[i]));
    }
    let health_titles = ["数据源", "状态", "延迟", "错误"];
    markdown.add_table(&health_titles, health_rows.as_slice());
    assert(row_views(health_rows@) =~= source_health@.map_values(
        |l: SourceHealthLine| health_cells(l),
    ));
    assert(str_views(header@) =~= candidate_header());
    assert(str_views(health_titles@) =~= health_header());
    let ghost fixed = markdown.sections();
    if source_health.len() == 0 {
        markdown.add_text("未提供数据源健康检查结果，本报告不将其视为通过。");
    }
    let ghost before_notes = markdown.sections();
    for i in 0..quality_notes.len()
        invariant
            markdown.title() == candidate_report_title(),
            markdown.sections() == before_notes + views(quality_notes@).take(i as int).map_values(
                |n: Seq<char>| text_section(n),
            ),
    {
        markdown.add_text(quality_notes[i].as_str());
        assert(views(quality_notes@).take(i + 1).map_values(|n: Seq<char>| text_section(n))
            =~= views(quality_notes@).take(i as int).map_values(|n: Seq<char>| text_section(n)).push(
            text_section(quality_notes@[i as int]@),
        ));
    }
    assert(views(quality_notes@).take(quality_notes@.len() as int) =~= views(quality_notes@));
    assert(markdown.sections() =~= candidate_report_sections(
        row_views(candidate_rows@),
        source_health@,
        views(quality_notes@),
    ));
    markdown.render()
}

/// The tags shown in a candidate's environment cell: its own tags, or, when it has
/// none, those of the environment scanned for its industry (none without a scan).
pub open spec fn environment_tags(
    own: Seq<Seq<char>>,
    scanned: Option<Seq<Seq<char>>>,
) -> Seq<Seq<char>> {
    if own.len() > 0 {
        own
    } else {
        match scanned {
            Some(tags) => tags,
            None => Seq::empty(),
        }
    }
}

/// The views of optional strings.
pub open spec fn optional_views(strings: Option<&[String]>) -> Option<Seq<Seq<char>>> {
    match strings {
        Some(s) => Some(views(s@)),
        None => None,
    }
}

/// The environment cell of a candidate row: the chosen tags joined with `; `.
pub fn environment_cell(own_tags: &[String], scanned_tags: Option<&[String]>) -> (cell: String)
    ensures
        cell@ == join(environment_tags(views(own_tags@), optional_views(scanned_tags)), "; "@),
{
    let mut cell = String::new();
    if own_tags.len() > 0 {
        append_joined(&mut cell, own_tags, "; ");
    } else {
        match scanned_tags {
            Some(tags) => append_joined(&mut cell, tags, "; "),
            None => {},
        }
    }
    assert(cell@ =~= join(environment_tags(views(own_tags@), optional_views(scanned_tags)), "; "@));
    cell
}

/// The formatted results of the portfolio simulation, one cell each.
#[derive(Debug, Clone)]
pub struct PortfolioCells {
    pub mean_monthly_return: String,
    pub max_drawdown: String,
    pub annualized_volatility: String,
    pub turnover: String,
    pub average_holdings: String,
    pub average_cash: String,
}

/// The formatted out-of-sample trade returns.
#[derive(Debug, Clone)]
pub struct OutOfSampleCells {
    pub count: u64,
    pub mean: String,
    pub median: String,
    pub win_rate: String,
}

/// A date bound of the backtest, or `无` when there is none.
pub open spec fn bound_text(date: Option<Date>) -> Seq<char> {
    match date {
        Some(d) => iso_date(d),
        None => "无"@,
    }
}

/// The sentence that opens the backtest report.
pub open spec fn backtest_summary_text(
    start: Option<Date>,
    end: Option<Date>,
    hold_months: u32,
    evaluated: usize,
    selected: usize,
) -> Seq<char> {
    "截面区间："@ + bound_text(start) + " 至 "@ + bound_text(end) + "；固定持有 "@ + decimal(
        hold_months as nat,
    ) + " 个月；评估快照 "@ + decimal(evaluated as nat) + " 个；入选 "@ + decimal(selected as nat)
        + " 次。"@
}

/// The rows of the portfolio table: each measure's label and its value.
pub open spec fn portfolio_table_rows(cells: PortfolioCells) -> Seq<Seq<Seq<char>>> {
    seq![
        seq!["组合月均收益（成本后）"@, cells.mean_monthly_return@],
        seq!["最大回撤"@, cells.max_drawdown@],
        seq!["年化波动率"@, cells.annualized_volatility@],
        seq!["累计换手"@, cells.turnover@],
        seq!["平均持仓数"@, cells.average_holdings@],
        seq!["平均现金比例"@, cells.average_cash@],
    ]
}

/// The line of average industry exposures.
pub open spec fn exposure_text(exposures: Seq<Seq<char>>) -> Seq<char> {
    "平均行业暴露："@ + join(exposures, "；"@) + "。"@
}

/// The out-of-sample line, or the note that no out-of-sample result exists.
pub open spec fn out_of_sample_text(cells: Option<OutOfSampleCells>) -> Seq<char> {
    match cells {
        Some(c) => "样本外交易收益：样本数 "@ + decimal(c.count as nat) + "，平均 "@ + c.mean@
            + "，中位数 "@ + c.median@ + "，胜率 "@ + c.win_rate@ + "。"@,
        None => "样本外结果不可用：历史截面少于 4 个月或没有完成交易。"@,
    }
}

/// The closing note on data quality.
pub open spec fn backtest_quality_note() -> Seq<char> {
    "本报告使用统一 as-of 规则；财务披露日为免费数据源的近似值，退出日不足六个月的数据不计入完成收益。敏感性网格仅用于诊断，不会自动修改 config/screen.toml。"@
}

/// The title of the backtest report.
pub open spec fn backtest_report_title() -> Seq<char> {
    "myfin 月度截面回测"@
}

/// The sections of the backtest report, in order: the summary sentence; the default
/// result; the results by year; the sensitivity grid; the portfolio table, followed by
/// the exposure line when there are exposures; the factor correlations; the
/// out-of-sample line; the ablations; and the data-quality note.
pub open spec fn backtest_report_sections(
    summary: Seq<char>,
    default_row: Seq<Seq<char>>,
    yearly_rows: Seq<Seq<Seq<char>>>,
    sensitivity_rows: Seq<Seq<Seq<char>>>,
    portfolio: PortfolioCells,
    exposures: Seq<Seq<char>>,
    correlation_rows: Seq<Seq<Seq<char>>>,
    out_of_sample: Option<OutOfSampleCells>,
    ablation_rows: Seq<Seq<Seq<char>>>,
) -> Seq<Seq<char>> {
    seq![
        text_section(summary),
        heading_section("默认参数结果"@, 2),
        table_section(seq!["样本数"@, "平均收益"@, "中位数收益"@, "胜率"@], seq![default_row]),
        heading_section("按年份分层"@, 2),
        table_section(
            seq!["年份"@, "入选次数"@, "完成数"@, "平均收益"@, "中位数收益"@, "胜率"@],
            yearly_rows,
        ),
        heading_section("敏感性网格"@, 2),
        table_section(
            seq![
                "估值分位阈值"@,
                "动量天数"@,
                "均线天数"@,
                "入选次数"@,
                "完成数"@,
                "平均收益"@,
                "中位数收益"@,
                "胜率"@,
            ],
            sensitivity_rows,
        ),
        heading_section("组合与样本外结果"@, 2),
        table_section(seq!["指标"@, "结果"@], portfolio_table_rows(portfolio)),
    ] + (if exposures.len() > 0 {
        seq![text_section(exposure_text(exposures))]
    } else {
        Seq::empty()
    }) + seq![
        heading_section("价格/估值信号相关性"@, 3),
        table_section(seq!["因子 A"@, "因子 B"@, "Pearson 相关"@], correlation_rows),
        text_section(out_of_sample_text(out_of_sample)),
        heading_section("关键假设消融"@, 3),
        table_section(seq!["变体"@, "入选"@, "完成"@, "平均收益"@, "最大回撤"@], ablation_rows),
        heading_section("数据质量说明"@, 2),
        text_section(backtest_quality_note()),
    ]
}

/// The text of an optional date bound.
fn bound_string(date: Option<Date>) -> (text: String)
    ensures
        text@ == bound_text(date),
{
    match date {
        Some(d) => d.iso_text(),
        None => "无".to_string(),
    }
}

fn backtest_summary(
    start: Option<Date>,
    end: Option<Date>,
    hold_months: u32,
    evaluated: usize,
    selected: usize,
) -> (text: String)
    ensures
        text@ == backtest_summary_text(start, end, hold_months, evaluated, selected),
{
    let mut text = "截面区间：".to_string();
    text.append(bound_string(start).as_str());
    text.append(" 至 ");
    text.append(bound_string(end).as_str());
    text.append("；固定持有 ");
    text.append(u64_to_decimal(hold_months as u64).as_str());
    text.append(" 个月；评估快照 ");
    text.append(u64_to_decimal(evaluated as u64).as_str());
    text.append(" 个；入选 ");
    text.append(u64_to_decimal(selected as u64).as_str());
    text.append(" 次。");
    text
}

fn label_row(label: &str, value: &String) -> (row: Vec<String>)
    ensures
        views(row@) == seq![label@, value@],
{
    let mut row: Vec<String> = Vec::new();
    row.push(label.to_string());
    row.push(value.clone());
    assert(views(row@) =~= seq![label@, value@]);
    row
}

fn portfolio_rows(cells: &PortfolioCells) -> (rows: Vec<Vec<String>>)
    ensures
        row_views(rows@) == portfolio_table_rows(*cells),
{
    let mut rows: Vec<Vec<String>> = Vec::new();
    rows.push(label_row("组合月均收益（成本后）", &cells.mean_monthly_return));
    rows.push(label_row("最大回撤", &cells.max_drawdown));
    rows.push(label_row("年化波动率", &cells.annualized_volatility));
    rows.push(label_row("累计换手", &cells.turnover));
    rows.push(label_row("平均持仓数", &cells.average_holdings));
    rows.push(label_row("平均现金比例", &cells.average_cash));
    assert(row_views(rows@) =~= portfolio_table_rows(*cells));
    rows
}

fn out_of_sample_line(cells: &Option<OutOfSampleCells>) -> (text: String)
    ensures
        text@ == out_of_sample_text(*cells),
{
    match cells {
        Some(c) => {
            let mut text = "样本外交易收益：样本数 ".to_string();
            text.append(u64_to_decimal(c.count).as_str());
            text.append("，平均 ");
            text.append(c.mean.as_str());
            text.append("，中位数 ");
            text.append(c.median.as_str());
            text.append("，胜率 ");
            text.append(c.win_rate.as_str());
            text.append("。");
            text
        },
        None => "样本外结果不可用：历史截面少于 4 个月或没有完成交易。".to_string(),
    }
}

/// Renders the monthly cross-section backtest report from its formatted figures: the
/// library lays out the sentences, headings and tables; the caller formats each number.
pub fn backtest_markdown(
    start: Option<Date>,
    end: Option<Date>,
    hold_months: u32,
    evaluated: usize,
    selected: usize,
    default_row: &[String],
    yearly_rows: &[Vec<String>],
    sensitivity_rows: &[Vec<String>],
    portfolio: &PortfolioCells,
    exposures: &[String],
    correlation_rows: &[Vec<String>],
    out_of_sample: &Option<OutOfSampleCells>,
    ablation_rows: &[Vec<String>],
) -> (markdown: String)
    ensures
        markdown@ == rendered(
            backtest_report_title(),
            backtest_report_sections(
                backtest_summary_text(start, end, hold_months, evaluated, selected),
                views(default_row@),
                row_views(yearly_rows@),
                row_views(sensitivity_rows@),
                *portfolio,
                views(exposures@),
                row_views(correlation_rows@),
                *out_of_sample,
                row_views(ablation_rows@),
            ),
        ),
{
    let mut markdown = MarkdownReport::new("myfin 月度截面回测");
    let summary = backtest_summary(start, end, hold_months, evaluated, selected);
    markdown.add_text(summary.as_str());
    markdown.add_heading("默认参数结果", 2);
    let default_header = ["样本数", "平均收益", "中位数收益", "胜率"];
    let mut first_row: Vec<String> = Vec::new();
    for i in 0..default_row.len()
        invariant
            first_row@.len() == i,
            forall|j: int| 0 <= j < i ==> (#[trigger] first_row@[j])@ == default_row@[j]@,
    {
        first_row.push(default_row[i].clone());
    }
    assert(views(first_row@) =~= views(default_row@));
    let default_rows = vec![first_row];
    markdown.add_table(&default_header, default_rows.as_slice());
    markdown.add_heading("按年份分层", 2);
    let yearly_header = ["年份", "入选次数", "完成数", "平均收益", "中位数收益", "胜率"];
    markdown.add_table(&yearly_header, yearly_rows);
    markdown.add_heading("敏感性网格", 2);
    let sensitivity_header = [
        "估值分位阈值",
        "动量天数",
        "均线天数",
        "入选次数",
        "完成数",
        "平均收益",
        "中位数收益",
        "胜率",
    ];
    markdown.add_table(&sensitivity_header, sensitivity_rows);
    markdown.add_heading("组合与样本外结果", 2);
    let portfolio_header = ["指标", "结果"];
    let rows = portfolio_rows(portfolio);
    markdown.add_table(&portfolio_header, rows.as_slice());
    let ghost before_exposure = markdown.sections();
    if exposures.len() > 0 {
        let mut line = "平均行业暴露：".to_string();
        append_joined(&mut line, exposures, "；");
        line.append("。");
        assert(line@ =~= exposure_text(views(exposures@)));
        markdown.add_text(line.as_str());
    }
    let ghost after_exposure = markdown.sections();
    markdown.add_heading("价格/估值信号相关性", 3);
    let correlation_header = ["因子 A", "因子 B", "Pearson 相关"];
    markdown.add_table(&correlation_header, correlation_rows);
    let oos = out_of_sample_line(out_of_sample);
    markdown.add_text(oos.as_str());
    markdown.add_heading("关键假设消融", 3);
    let ablation_header = ["变体", "入选", "完成", "平均收益", "最大回撤"];
    markdown.add_table(&ablation_header, ablation_rows);
    markdown.add_heading("数据质量说明", 2);
    markdown.add_text(
        "本报告使用统一 as-of 规则；财务披露日为免费数据源的近似值，退出日不足六个月的数据不计入完成收益。敏感性网格仅用于诊断，不会自动修改 config/screen.toml。",
    );
    proof {
        assert(default_rows@.len() == 1);
        assert(row_views(default_rows@) =~= seq![views(default_row@)]);
        assert(str_views(default_header@) =~= seq!["样本数"@, "平均收益"@, "中位数收益"@, "胜率"@]);
        assert(str_views(yearly_header@) =~= seq![
            "年份"@,
            "入选次数"@,
            "完成数"@,
            "平均收益"@,
            "中位数收益"@,
            "胜率"@,
        ]);
        assert(str_views(sensitivity_header@) =~= seq![
            "估值分位阈值"@,
            "动量天数"@,
            "均线天数"@,
            "入选次数"@,
            "完成数"@,
            "平均收益"@,
            "中位数收益"@,
            "胜率"@,
        ]);
        assert(str_views(portfolio_header@) =~= seq!["指标"@, "结果"@]);
        assert(str_views(correlation_header@) =~= seq!["因子 A"@, "因子 B"@, "Pearson 相关"@]);
        assert(str_views(ablation_header@) =~= seq![
            "变体"@,
            "入选"@,
            "完成"@,
            "平均收益"@,
            "最大回撤"@,
        ]);
    }
    assert(markdown.sections() =~= backtest_report_sections(
        backtest_summary_text(start, end, hold_months, evaluated, selected),
        views(default_row@),
        row_views(yearly_rows@),
        row_views(sensitivity_rows@),
        *portfolio,
        views(exposures@),
        row_views(correlation_rows@),
        *out_of_sample,
        row_views(ablation_rows@),
    ));
    markdown.render()
}

} // verus!
