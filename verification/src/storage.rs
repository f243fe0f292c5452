//! Rules of the Parquet data store: partitions, schemas, de-duplication keys and the
//! SQL text that the DuckDB engine runs.

use vstd::prelude::*;

use crate::dataset::{dataset_name, Dataset};
use crate::financial::{field_name, notice_kind_name, FinancialField, NoticeKind};
use crate::layout::{path_join, Layout};
use crate::dataset::dataset_dir;
use crate::date::Date;
use crate::layout::join_path;
use crate::report::{join, views, str_views};
use crate::text::{chars_of, push_char, signed_decimal, str_eq};
use vstd::string::StringSliceAdditionalSpecFns;

verus! {

/// Storage errors. Engine failures carry the engine's message.
#[derive(Debug)]
pub enum StorageError {
    Io(std::io::Error),
    DuckDb(String),
    Invalid(String),
}

/// The text of a path inside a single-quoted SQL literal: backslashes become slashes and
/// quotes are doubled.
pub open spec fn sql_body(path: Seq<char>) -> Seq<char>
    decreases path.len(),
{
    if path.len() == 0 {
        Seq::empty()
    } else {
        sql_body(path.drop_last()) + if path.last() == '\\' {
            seq!['/']
        } else if path.last() == '\'' {
            seq!['\'', '\'']
        } else {
            seq![path.last()]
        }
    }
}

/// A path as a quoted SQL string literal.
pub open spec fn sql_quoted(path: Seq<char>) -> Seq<char> {
    seq!['\''] + sql_body(path) + seq!['\'']
}

/// A path as a quoted SQL string literal, with `/` separators.
pub fn sql_literal(path: &str) -> (literal: String)
    ensures
        literal@ == sql_quoted(path@),
{
    let chars = chars_of(path);
    let mut literal = String::new();
    push_char(&mut literal, '\'');
    for i in 0..chars.len()
        invariant
            chars@ == path@,
            literal@ == seq!['\''] + sql_body(chars@.take(i as int)),
    {
        let c = chars[i];
        assert(chars@.take(i + 1).drop_last() =~= chars@.take(i as int));
        if c == '\\' {
            push_char(&mut literal, '/');
        } else if c == '\'' {
            push_char(&mut literal, '\'');
            push_char(&mut literal, '\'');
        } else {
            push_char(&mut literal, c);
        }
        assert(literal@ =~= seq!['\''] + sql_body(chars@.take(i + 1)));
    }
    assert(chars@.take(chars@.len() as int) =~= chars@);
    push_char(&mut literal, '\'');
    literal
}

/// The quoted literal of each path.
pub open spec fn quoted_all(files: Seq<String>) -> Seq<Seq<char>> {
    files.map_values(|f: String| sql_quoted(f@))
}

/// A DuckDB list of path literals: `['a', 'b']`.
pub fn parquet_list(files: &[String]) -> (list: String)
    ensures
        list@ == seq!['['] + join(quoted_all(files@), ", "@) + seq![']'],
{
    let mut list = String::new();
    push_char(&mut list, '[');
    let ghost start = list@;
    for i in 0..files.len()
        invariant
            list@ == start + join(quoted_all(files@.take(i as int)), ", "@),
    {
        let ghost before = quoted_all(files@.take(i as int));
        let ghost after = quoted_all(files@.take(i + 1));
        assert(after.drop_last() =~= before);
        if i > 0 {
            list.append(", ");
        } else {
            assert(before.len() == 0);
        }
        let literal = sql_literal(files[i].as_str());
        list.append(literal.as_str());
    }
    assert(files@.take(files@.len() as int) =~= files@);
    push_char(&mut list, ']');
    list
}

/// The columns that a dataset's Parquet files must have.
pub open spec fn spec_expected_columns(dataset: Dataset) -> Option<Seq<Seq<char>>> {
    match dataset {
        Dataset::Daily => Some(
            seq![
                "symbol"@,
                "trade_date"@,
                "open"@,
                "high"@,
                "low"@,
                "close"@,
                "volume"@,
                "amount"@,
                "source"@,
            ],
        ),
        Dataset::AdjFactor => Some(seq!["symbol"@, "ex_date"@, "cum_factor"@, "source"@]),
        Dataset::Financial => Some(
            seq!["symbol"@, "report_period"@, "ann_date"@, "fields"@, "source"@],
        ),
        Dataset::EarningsNotice => Some(
            seq![
                "symbol"@,
                "ann_date"@,
                "report_period"@,
                "kind"@,
                "net_profit"@,
                "net_profit_yoy"@,
                "source"@,
            ],
        ),
        Dataset::PriceVal => Some(
            seq![
                "symbol"@,
                "trade_date"@,
                "close"@,
                "total_shares"@,
                "float_shares"@,
                "source"@,
            ],
        ),
        Dataset::Macro => None,
    }
}

/// The columns that a dataset's Parquet files must have; macro data has no fixed schema.
pub fn expected_columns(dataset: Dataset) -> (columns: Option<Vec<&'static str>>)
    ensures
        columns is Some <==> spec_expected_columns(dataset) is Some,
        columns matches Some(c) ==> str_views(c@) == spec_expected_columns(dataset)->0,
{
    let columns = match dataset {
        Dataset::Daily => Some(
            vec![
                "symbol",
                "trade_date",
                "open",
                "high",
                "low",
                "close",
                "volume",
                "amount",
                "source",
            ],
        ),
        Dataset::AdjFactor => Some(vec!["symbol", "ex_date", "cum_factor", "source"]),
        Dataset::Financial => Some(vec!["symbol", "report_period", "ann_date", "fields", "source"]),
        Dataset::EarningsNotice => Some(
            vec![
                "symbol",
                "ann_date",
                "report_period",
                "kind",
                "net_profit",
                "net_profit_yoy",
                "source",
            ],
        ),
        Dataset::PriceVal => Some(
            vec!["symbol", "trade_date", "close", "total_shares", "float_shares", "source"],
        ),
        Dataset::Macro => None,
    };
    proof {
        if columns is Some {
            assert(str_views(columns->0@) =~= spec_expected_columns(dataset)->0);
        }
    }
    columns
}

/// The key columns under which a dataset keeps one row.
pub open spec fn spec_dedup_keys(dataset: Dataset) -> Option<Seq<char>> {
    match dataset {
        Dataset::Daily => Some("symbol, trade_date, source"@),
        Dataset::AdjFactor => Some("symbol, ex_date, source"@),
        Dataset::Financial => Some("symbol, report_period, ann_date, source"@),
        Dataset::EarningsNotice => Some("symbol, ann_date, report_period, kind, source"@),
        Dataset::PriceVal => Some("symbol, trade_date, source"@),
        Dataset::Macro => None,
    }
}

/// The key columns under which a dataset keeps one row.
pub fn dedup_keys(dataset: Dataset) -> (keys: Option<&'static str>)
    ensures
        keys is Some <==> spec_dedup_keys(dataset) is Some,
        keys matches Some(k) ==> k@ == spec_dedup_keys(dataset)->0,
{
    match dataset {
        Dataset::Daily => Some("symbol, trade_date, source"),
        Dataset::AdjFactor => Some("symbol, ex_date, source"),
        Dataset::Financial => Some("symbol, report_period, ann_date, source"),
        Dataset::EarningsNotice => Some("symbol, ann_date, report_period, kind, source"),
        Dataset::PriceVal => Some("symbol, trade_date, source"),
        Dataset::Macro => None,
    }
}

/// The date column by whose year a dataset is split into partitions.
pub open spec fn spec_partition_column(dataset: Dataset) -> Option<Seq<char>> {
    match dataset {
        Dataset::Daily | Dataset::PriceVal => Some("trade_date"@),
        Dataset::Financial | Dataset::EarningsNotice => Some("report_period"@),
        Dataset::AdjFactor | Dataset::Macro => None,
    }
}

/// The date column by whose year a dataset is split into partitions.
pub fn partition_column(dataset: Dataset) -> (column: Option<&'static str>)
    ensures
        column is Some <==> spec_partition_column(dataset) is Some,
        column matches Some(c) ==> c@ == spec_partition_column(dataset)->0,
{
    match dataset {
        Dataset::Daily | Dataset::PriceVal => Some("trade_date"),
        Dataset::Financial | Dataset::EarningsNotice => Some("report_period"),
        Dataset::AdjFactor | Dataset::Macro => None,
    }
}

/// The date column that the synchronisation manifest counts rows by.
pub open spec fn spec_manifest_date_column(dataset: Dataset) -> Option<Seq<char>> {
    match dataset {
        Dataset::Daily | Dataset::PriceVal => Some("trade_date"@),
        Dataset::AdjFactor => Some("ex_date"@),
        Dataset::Financial | Dataset::EarningsNotice => Some("report_period"@),
        Dataset::Macro => None,
    }
}

/// The date column that the synchronisation manifest counts rows by.
pub fn manifest_date_column(dataset: Dataset) -> (column: Option<&'static str>)
    ensures
        column is Some <==> spec_manifest_date_column(dataset) is Some,
        column matches Some(c) ==> c@ == spec_manifest_date_column(dataset)->0,
{
    match dataset {
        Dataset::Daily | Dataset::PriceVal => Some("trade_date"),
        Dataset::AdjFactor => Some("ex_date"),
        Dataset::Financial | Dataset::EarningsNotice => Some("report_period"),
        Dataset::Macro => None,
    }
}

/// The query that merges an incoming relation into an existing file, incoming rows
/// winning on equal keys.
pub open spec fn merge_query_text(
    columns: Seq<char>,
    target: Seq<char>,
    relation: Seq<char>,
    keys: Seq<char>,
) -> Seq<char> {
    "SELECT "@ + columns + " FROM (\n            SELECT "@ + columns
        + ", 0 AS _priority FROM read_parquet("@ + sql_quoted(target)
        + ")\n            UNION ALL\n            SELECT "@ + columns + ", 1 AS _priority FROM ("@
        + relation
        + ") AS incoming\n        ) AS merged\n        QUALIFY row_number() OVER (\n            PARTITION BY "@
        + keys + "\n            ORDER BY _priority DESC\n        ) = 1"@
}

/// The query that merges `relation` into the file at `target`; datasets without a
/// schema or keys take the relation as it is.
pub fn merge_relation_query(dataset: Dataset, target: &str, relation: &str) -> (query: Result<
    String,
    StorageError,
>)
    ensures
        query is Ok,
        query matches Ok(q) ==> if spec_expected_columns(dataset) is Some
            && spec_dedup_keys(dataset) is Some {
            q@ == merge_query_text(
                join(spec_expected_columns(dataset)->0, ", "@),
                target@,
                relation@,
                spec_dedup_keys(dataset)->0,
            )
        } else {
            q@ == "SELECT * FROM "@ + relation@
        },
{
    let columns = match expected_columns(dataset) {
        Some(columns) => columns,
        None => {
            let mut query = "SELECT * FROM ".to_string();
            query.append(relation);
            return Ok(query);
        },
    };
    let keys = match dedup_keys(dataset) {
        Some(keys) => keys,
        None => {
            let mut query = "SELECT * FROM ".to_string();
            query.append(relation);
            return Ok(query);
        },
    };
    let mut joined = String::new();
    for i in 0..columns.len()
        invariant
            joined@ == join(str_views(columns@.take(i as int)), ", "@),
    {
        let ghost before = str_views(columns@.take(i as int));
        let ghost after = str_views(columns@.take(i + 1));
        assert(after.drop_last() =~= before);
        if i > 0 {
            joined.append(", ");
        } else {
            assert(before.len() == 0);
            assert(joined@ =~= Seq::<char>::empty());
        }
        joined.append(columns[i]);
    }
    assert(columns@.take(columns@.len() as int) =~= columns@);
    let cols = joined.as_str();
    let mut query = "SELECT ".to_string();
    query.append(cols);
    query.append(" FROM (\n            SELECT ");
    query.append(cols);
    query.append(", 0 AS _priority FROM read_parquet(");
    query.append(sql_literal(target).as_str());
    query.append(")\n            UNION ALL\n            SELECT ");
    query.append(cols);
    query.append(", 1 AS _priority FROM (");
    query.append(relation);
    query.append(
        ") AS incoming\n        ) AS merged\n        QUALIFY row_number() OVER (\n            PARTITION BY ",
    );
    query.append(keys);
    query.append("\n            ORDER BY _priority DESC\n        ) = 1");
    Ok(query)
}

/// The text of the error for missing Parquet columns.
pub open spec fn missing_columns_message(dataset: Dataset, missing: Seq<Seq<char>>) -> Seq<char> {
    dataset_name(dataset) + " Parquet 缺少字段: "@ + join(missing, ", "@)
}

/// The expected columns of `dataset` that `actual` lacks, in schema order.
pub open spec fn missing_columns(expected: Seq<Seq<char>>, actual: Seq<Seq<char>>) -> Seq<
    Seq<char>,
> {
    expected.filter(|c: Seq<char>| !actual.contains(c))
}

/// Checks that a Parquet file with columns `actual` has every column that `dataset`
/// requires; the error lists the missing ones.
pub fn validate_columns(dataset: Dataset, actual: &[String]) -> (checked: Result<(), StorageError>)
    ensures
        spec_expected_columns(dataset) is None ==> checked is Ok,
        spec_expected_columns(dataset) matches Some(expected) ==> {
            &&& checked is Ok <==> missing_columns(expected, views(actual@)).len() == 0
            &&& checked matches Err(e) ==> e matches StorageError::Invalid(m) && m@
                == missing_columns_message(dataset, missing_columns(expected, views(actual@)))
        },
{
    let expected = match expected_columns(dataset) {
        Some(expected) => expected,
        None => return Ok(()),
    };
    let ghost exp = str_views(expected@);
    let ghost act = views(actual@);
    let mut missing: Vec<&'static str> = Vec::new();
    for i in 0..expected.len()
        invariant
            exp == str_views(expected@),
            act == views(actual@),
            str_views(missing@) == missing_columns(exp.take(i as int), act),
    {
        let column = expected[i];
        let mut found = false;
        for j in 0..actual.len()
            invariant
                act == views(actual@),
                found == exists|k: int| 0 <= k < j && act[k] == column@,
        {
            assert(act[j as int] == actual@[j as int]@);
            if str_eq(actual[j].as_str(), column) {
                found = true;
            }
        }
        proof {
            assert(found == act.contains(column@)) by {
                if act.contains(column@) {
                    let k = choose|k: int| 0 <= k < act.len() && act[k] == column@;
                    assert(0 <= k < actual@.len() as int);
                }
            }
            assert(exp.take(i + 1).drop_last() =~= exp.take(i as int));
            assert(exp.take(i + 1).last() == column@);
            reveal_with_fuel(Seq::filter, 1);
        }
        if !found {
            missing.push(column);
            assert(str_views(missing@) =~= missing_columns(exp.take(i as int), act).push(
                column@,
            ));
        } else {
            assert(str_views(missing@) =~= missing_columns(exp.take(i + 1), act));
        }
    }
    assert(exp.take(expected@.len() as int) =~= exp);
    if missing.len() == 0 {
        return Ok(());
    }
    let mut message = dataset.as_str().to_string();
    message.append(" Parquet 缺少字段: ");
    for i in 0..missing.len()
        invariant
            message@ == dataset_name(dataset) + " Parquet 缺少字段: "@ + join(
                str_views(missing@.take(i as int)),
                ", "@,
            ),
    {
        let ghost before = str_views(missing@.take(i as int));
        let ghost after = str_views(missing@.take(i + 1));
        assert(after.drop_last() =~= before);
        if i > 0 {
            message.append(", ");
        } else {
            assert(before.len() == 0);
        }
        message.append(missing[i]);
    }
    assert(missing@.take(missing@.len() as int) =~= missing@);
    Err(StorageError::Invalid(message))
}

/// The financial field stored under `name`.
pub open spec fn spec_financial_field(name: Seq<char>) -> Option<FinancialField> {
    if exists|f: FinancialField| field_name(f) == name {
        Some(choose|f: FinancialField| field_name(f) == name)
    } else {
        None
    }
}

/// Stored field names are distinct, so each name decodes to its own field.
pub proof fn lemma_field_names_distinct(a: FinancialField, b: FinancialField)
    ensures
        field_name(a) == field_name(b) ==> a == b,
{
    reveal_strlit("revenue");
    reveal_strlit("net_profit");
    reveal_strlit("equity");
    reveal_strlit("total_assets");
    reveal_strlit("total_liabilities");
    reveal_strlit("oper_cash_flow");
    reveal_strlit("eps");
    reveal_strlit("bps");
    reveal_strlit("gross_margin");
    reveal_strlit("roe");
    reveal_strlit("debt_ratio");
    if field_name(a) == field_name(b) && a != b {
        assert(field_name(a).len() == field_name(b).len());
        assert(field_name(a)[0] == field_name(b)[0]);
        assert(field_name(a)[1] == field_name(b)[1]);
        assert(field_name(a)[2] == field_name(b)[2]);
    }
}

/// The financial field that a stored name denotes.
pub fn financial_field(name: &str) -> (field: Option<FinancialField>)
    ensures
        field is Some <==> exists|f: FinancialField| field_name(f) == name@,
        field matches Some(f) ==> field_name(f) == name@,
{
    let fields = [
        FinancialField::Revenue,
        FinancialField::NetProfit,
        FinancialField::Equity,
        FinancialField::TotalAssets,
        FinancialField::TotalLiabilities,
        FinancialField::OperCashFlow,
        FinancialField::Eps,
        FinancialField::Bps,
        FinancialField::GrossMargin,
        FinancialField::Roe,
        FinancialField::DebtRatio,
    ];
    let names = [
        "revenue",
        "net_profit",
        "equity",
        "total_assets",
        "total_liabilities",
        "oper_cash_flow",
        "eps",
        "bps",
        "gross_margin",
        "roe",
        "debt_ratio",
    ];
    assert forall|k: int| 0 <= k < 11 implies field_name(#[trigger] fields@[k]) == names@[k]@ by {}
    for i in 0..11
        invariant
            fields@.len() == 11,
            names@.len() == 11,
            forall|k: int| 0 <= k < 11 ==> field_name(#[trigger] fields@[k]) == names@[k]@,
            forall|k: int| 0 <= k < i ==> names@[k]@ != name@,
    {
        if str_eq(names[i], name) {
            return Some(fields[i]);
        }
    }
    assert forall|f: FinancialField| field_name(f) != name@ by {
        match f {
            FinancialField::Revenue => assert(fields@[0] == f),
            FinancialField::NetProfit => assert(fields@[1] == f),
            FinancialField::Equity => assert(fields@[2] == f),
            FinancialField::TotalAssets => assert(fields@[3] == f),
            FinancialField::TotalLiabilities => assert(fields@[4] == f),
            FinancialField::OperCashFlow => assert(fields@[5] == f),
            FinancialField::Eps => assert(fields@[6] == f),
            FinancialField::Bps => assert(fields@[7] == f),
            FinancialField::GrossMargin => assert(fields@[8] == f),
            FinancialField::Roe => assert(fields@[9] == f),
            FinancialField::DebtRatio => assert(fields@[10] == f),
        }
    }
    None
}

/// The stored name of a notice kind.
pub fn notice_kind(kind: NoticeKind) -> (name: &'static str)
    ensures
        name@ == notice_kind_name(kind),
{
    match kind {
        NoticeKind::Forecast => "forecast",
        NoticeKind::Express => "express",
    }
}

/// Whether `value` can serve as a single file-name component: non-empty, not `.` or
/// `..`, and free of `/`, `\` and `:`.
pub open spec fn is_safe_component(value: Seq<char>) -> bool {
    &&& value.len() > 0
    &&& value != seq!['.']
    &&& value != seq!['.', '.']
    &&& !value.contains('/')
    &&& !value.contains('\\')
    &&& !value.contains(':')
}

/// Accepts `value` as a single file-name component, so that no outside input can
/// address a file outside the data root.
pub fn safe_component(value: &str) -> (checked: Result<&str, StorageError>)
    ensures
        checked is Ok <==> is_safe_component(value@),
        checked matches Ok(v) ==> v@ == value@,
        checked matches Err(e) ==> e matches StorageError::Invalid(m) && m@ == "非法文件名组件: "@
            + value@,
{
    let chars = chars_of(value);
    let mut bad = chars.len() == 0;
    if chars.len() == 1 && chars[0] == '.' {
        assert(chars@ =~= seq!['.']);
        bad = true;
    }
    if chars.len() == 2 && chars[0] == '.' && chars[1] == '.' {
        assert(chars@ =~= seq!['.', '.']);
        bad = true;
    }
    if !bad {
        assert(chars@ != seq!['.'] && chars@ != seq!['.', '.']) by {
            if chars@ == seq!['.'] {
                assert(chars@[0] == '.');
            }
            if chars@ == seq!['.', '.'] {
                assert(chars@[0] == '.' && chars@[1] == '.');
            }
        }
    }
    for i in 0..chars.len()
        invariant
            chars@ == value@,
            bad == (!(chars@.len() > 0 && chars@ != seq!['.'] && chars@ != seq!['.', '.'])
                || exists|k: int|
                0 <= k < i && (chars@[k] == '/' || chars@[k] == '\\' || chars@[k] == ':')),
    {
        let c = chars[i];
        if c == '/' || c == '\\' || c == ':' {
            bad = true;
        }
    }
    proof {
        if value@.contains('/') || value@.contains('\\') || value@.contains(':') {
            let k = choose|k: int|
                0 <= k < value@.len() && (value@[k] == '/' || value@[k] == '\\' || value@[k]
                    == ':');
            assert(0 <= k < chars@.len());
        }
        if !is_safe_component(value@) && chars@.len() > 0 && chars@ != seq!['.'] && chars@
            != seq!['.', '.'] {
            if value@.contains('/') {
                let k = choose|k: int| 0 <= k < value@.len() && value@[k] == '/';
                assert(chars@[k] == '/');
            } else if value@.contains('\\') {
                let k = choose|k: int| 0 <= k < value@.len() && value@[k] == '\\';
                assert(chars@[k] == '\\');
            } else {
                let k = choose|k: int| 0 <= k < value@.len() && value@[k] == ':';
                assert(chars@[k] == ':');
            }
        }
    }
    if bad {
        let mut message = "非法文件名组件: ".to_string();
        message.append(value);
        return Err(StorageError::Invalid(message));
    }
    Ok(value)
}

/// A partition name that names a year: exactly four ASCII digits, read as a decimal.
pub open spec fn partition_year(p: Seq<char>) -> Option<int> {
    if p.len() == 4 && all_digit_chars(p) {
        Some(digits_value(p))
    } else {
        None
    }
}

/// Every character of `s` is an ASCII digit.
pub open spec fn all_digit_chars(s: Seq<char>) -> bool {
    forall|i: int| 0 <= i < s.len() ==> '0' <= #[trigger] s[i] <= '9'
}

/// The value of a string of ASCII digits.
pub open spec fn digits_value(s: Seq<char>) -> int
    decreases s.len(),
{
    if s.len() == 0 {
        0
    } else {
        digits_value(s.drop_last()) * 10 + (s.last() as int - '0' as int)
    }
}

/// The value of the ASCII digits `chars[from..4]`, or `None` if one is not a digit.
fn read_digits(chars: &Vec<char>, from: usize) -> (value: Option<i32>)
    requires
        chars@.len() == 4,
        from <= 4,
    ensures
        value is Some <==> all_digit_chars(chars@.skip(from as int)),
        value matches Some(v) ==> v == digits_value(chars@.skip(from as int)) && 0 <= v < 10000,
{
    let mut value: i32 = 0;
    for i in from..4
        invariant
            chars@.len() == 4,
            from <= 4,
            all_digit_chars(chars@.subrange(from as int, i as int)),
            value == digits_value(chars@.subrange(from as int, i as int)),
            0 <= value < 10000,
            value < pow10((i - from) as nat),
    {
        let c = chars[i];
        if !('0' <= c && c <= '9') {
            assert(!('0' <= chars@.skip(from as int)[i - from] <= '9'));
            return None;
        }
        let ghost prefix = chars@.subrange(from as int, i + 1);
        assert(prefix.drop_last() =~= chars@.subrange(from as int, i as int));
        proof {
            reveal_with_fuel(pow10, 5);
        }
        assert(pow10((i + 1 - from) as nat) == 10 * pow10((i - from) as nat));
        assert(pow10((i + 1 - from) as nat) <= 10000);
        value = value * 10 + (c as u32 - '0' as u32) as i32;
        assert(all_digit_chars(prefix)) by {
            assert forall|k: int| 0 <= k < prefix.len() implies '0' <= #[trigger] prefix[k]
                <= '9' by {
                if k < prefix.len() - 1 {
                    assert(prefix[k] == chars@.subrange(from as int, i as int)[k]);
                }
            }
        }
    }
    assert(chars@.subrange(from as int, 4) =~= chars@.skip(from as int));
    Some(value)
}

/// Ten to the power `n`.
pub open spec fn pow10(n: nat) -> int
    decreases n,
{
    if n == 0 {
        1
    } else {
        10 * pow10((n - 1) as nat)
    }
}

/// A name that reads as a year is four ASCII characters, so four bytes.
pub proof fn lemma_year_is_four_bytes(s: &str)
    requires
        partition_year(s@) is Some,
    ensures
        s.spec_bytes().len() == 4,
{
    assert(vstd::string::is_ascii(s));
    vstd::string::is_ascii_spec_bytes(s);
}

/// Reads a partition name as a year: it must be exactly four ASCII digits.
fn parse_partition_year(partition: &str) -> (year: Option<i32>)
    ensures
        year is Some <==> partition_year(partition@) is Some,
        year matches Some(y) ==> y == partition_year(partition@)->0,
{
    if partition.len() != 4 {
        proof {
            if partition_year(partition@) is Some {
                lemma_year_is_four_bytes(partition);
            }
        }
        return None;
    }
    let chars = chars_of(partition);
    if chars.len() != 4 {
        return None;
    }
    assert(chars@.skip(0) =~= chars@);
    read_digits(&chars, 0)
}

/// Reads and writes Parquet files under the data layout.
#[derive(Debug, Clone)]
pub struct ParquetStore {
    layout: Layout,
}

/// The text of the error for a partition that is neither a year nor `all`.
pub open spec fn bad_partition_message(partition: Seq<char>) -> Seq<char> {
    "分区必须是四位年份或 all: "@ + partition
}

impl ParquetStore {
    /// The layout that the store writes into.
    pub closed spec fn spec_layout(&self) -> Layout {
        self.layout
    }

    pub fn new(layout: Layout) -> (store: ParquetStore)
        ensures
            store.spec_layout() == layout,
    {
        ParquetStore { layout }
    }

    pub fn layout(&self) -> (layout: &Layout)
        ensures
            *layout == self.spec_layout(),
    {
        &self.layout
    }

    /// The directory of a partition: `all` is the dataset directory, a four-digit year
    /// its year directory; anything else is rejected.
    pub fn partition_dir(&self, dataset: Dataset, partition: &str) -> (dir: Result<
        String,
        StorageError,
    >)
        ensures
            partition@ == "all"@ ==> (dir matches Ok(d) && d@ == path_join(
                self.spec_layout().root@,
                dataset_dir(dataset),
            )),
            partition@ != "all"@ && partition_year(partition@) is Some ==> (dir matches Ok(d) && d@ == path_join(
                path_join(self.spec_layout().root@, dataset_dir(dataset)),
                signed_decimal(partition_year(partition@)->0),
            )),
            partition@ != "all"@ && partition_year(partition@) is None ==> (dir matches Err(e) && e matches StorageError::Invalid(m) && m@
                == bad_partition_message(partition@)),
    {
        if str_eq(partition, "all") {
            return Ok(self.layout.dataset_dir(dataset));
        }
        match parse_partition_year(partition) {
            Some(year) => Ok(self.layout.dataset_year_dir(dataset, year)),
            None => {
                let mut message = "分区必须是四位年份或 all: ".to_string();
                message.append(partition);
                Err(StorageError::Invalid(message))
            },
        }
    }
}

/// The filter that a query appends for the bounds it was given on `column`.
pub open spec fn date_filter(column: Seq<char>, has_start: bool, has_end: bool) -> Seq<char> {
    if has_start && has_end {
        " AND "@ + column + " >= ? AND "@ + column + " <= ?"@
    } else if has_start {
        " AND "@ + column + " >= ?"@
    } else if has_end {
        " AND "@ + column + " <= ?"@
    } else {
        Seq::empty()
    }
}

/// Appends to `sql` a placeholder condition on `column` for each bound given.
pub fn append_date_filter(sql: &mut String, column: &str, start: Option<Date>, end: Option<Date>)
    ensures
        final(sql)@ == old(sql)@ + date_filter(column@, start is Some, end is Some),
{
    match (start, end) {
        (Some(_), Some(_)) => {
            sql.append(" AND ");
            sql.append(column);
            sql.append(" >= ? AND ");
            sql.append(column);
            sql.append(" <= ?");
        },
        (Some(_), None) => {
            sql.append(" AND ");
            sql.append(column);
            sql.append(" >= ?");
        },
        (None, Some(_)) => {
            sql.append(" AND ");
            sql.append(column);
            sql.append(" <= ?");
        },
        (None, None) => {},
    }
    assert(final(sql)@ =~= old(sql)@ + date_filter(column@, start is Some, end is Some));
}

impl ParquetStore {
    /// The file that holds the rows of `source` in a partition of `dataset`:
    /// `<partition dir>/<source>.parquet`, where `source` must be a safe file-name
    /// component.
    pub fn target_path(&self, dataset: Dataset, partition: &str, source: &str) -> (path: Result<
        String,
        StorageError,
    >)
        ensures
            partition@ == "all"@ && is_safe_component(source@) ==> (path matches Ok(p) && p@
                == path_join(
                path_join(self.spec_layout().root@, dataset_dir(dataset)),
                source@ + ".parquet"@,
            )),
            partition@ != "all"@ && partition_year(partition@) is Some && is_safe_component(
                source@,
            ) ==> (path matches Ok(p) && p@ == path_join(
                path_join(
                    path_join(self.spec_layout().root@, dataset_dir(dataset)),
                    signed_decimal(partition_year(partition@)->0),
                ),
                source@ + ".parquet"@,
            )),
            partition@ != "all"@ && partition_year(partition@) is None ==> (path matches Err(e) && e matches StorageError::Invalid(m) && m@
                == bad_partition_message(partition@)),
            (partition@ == "all"@ || partition_year(partition@) is Some) && !is_safe_component(source@) ==> (path matches Err(e)
                && e matches StorageError::Invalid(m) && m@ == "非法文件名组件: "@ + source@),
    {
        let dir = match self.partition_dir(dataset, partition) {
            Ok(dir) => dir,
            Err(error) => return Err(error),
        };
        let name = match safe_component(source) {
            Ok(name) => name,
            Err(error) => return Err(error),
        };
        let mut file = name.to_string();
        file.append(".parquet");
        Ok(join_path(dir.as_str(), file.as_str()))
    }
}

} // verus!
