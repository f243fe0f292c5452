//! Symbol handling and response helpers of the native HTTP adapters (Tencent and Tushare).

use vstd::prelude::*;

use crate::dataset::{dataset_name, Dataset, DatasetProbe, DatasetSpec};
use crate::error::{is_source_error, Error};
use crate::registry::SourceConfig;
use crate::source::SourceCapabilities;
use crate::text::{chars_of, str_eq, string_from_chars};
use vstd::string::StringSliceAdditionalSpecFns;
use vstd::utf8::{decode_utf8, is_char_boundary};

verus! {

/// ASCII letter or digit.
pub open spec fn is_ascii_alphanumeric(c: char) -> bool {
    ('0' <= c <= '9') || ('A' <= c <= 'Z') || ('a' <= c <= 'z')
}

/// ASCII digit.
pub open spec fn is_ascii_digit(c: char) -> bool {
    '0' <= c <= '9'
}

/// Every character of `s` is an ASCII digit.
pub open spec fn all_digits(s: Seq<char>) -> bool {
    forall|i: int| 0 <= i < s.len() ==> is_ascii_digit(#[trigger] s[i])
}

/// A symbol that adapters accept: non-empty, made of ASCII letters, digits and dots.
pub open spec fn symbol_is_safe(s: Seq<char>) -> bool {
    s.len() > 0 && forall|i: int|
        0 <= i < s.len() ==> is_ascii_alphanumeric(#[trigger] s[i]) || s[i] == '.'
}

/// Rejects symbols that are empty or hold anything but ASCII letters, digits and dots,
/// so that no symbol can inject request parameters.
pub fn validate_symbol(source: &str, symbol: &str) -> (checked: Result<(), Error>)
    ensures
        checked is Ok <==> symbol_is_safe(symbol@),
        checked matches Err(e) ==> is_source_error(e, source@, "标的代码包含非法字符"@),
{
    let chars = chars_of(symbol);
    let mut safe = chars.len() > 0;
    for i in 0..chars.len()
        invariant
            chars@ == symbol@,
            safe == (chars@.len() > 0 && forall|j: int|
                0 <= j < i ==> is_ascii_alphanumeric(#[trigger] chars@[j]) || chars@[j] == '.'),
    {
        let c = chars[i];
        let ok = ('0' <= c && c <= '9') || ('A' <= c && c <= 'Z') || ('a' <= c && c <= 'z') || c
            == '.';
        safe = safe && ok;
    }
    if !safe {
        return Err(Error::source_err(source, "标的代码包含非法字符"));
    }
    Ok(())
}

/// Whether position `d` holds the first `.` of `s`.
pub open spec fn is_first_dot(s: Seq<char>, d: int) -> bool {
    0 <= d < s.len() && s[d] == '.' && forall|j: int| 0 <= j < d ==> s[j] != '.'
}

/// The canonical exchange suffix that a two-letter suffix names, ignoring ASCII case.
pub open spec fn suffix_ignoring_case(ex: Seq<char>) -> Option<Seq<char>> {
    if ex.len() != 2 {
        None
    } else if (ex[0] == 'S' || ex[0] == 's') && (ex[1] == 'H' || ex[1] == 'h') {
        Some(seq!['S', 'H'])
    } else if (ex[0] == 'S' || ex[0] == 's') && (ex[1] == 'Z' || ex[1] == 'z') {
        Some(seq!['S', 'Z'])
    } else if (ex[0] == 'B' || ex[0] == 'b') && (ex[1] == 'J' || ex[1] == 'j') {
        Some(seq!['B', 'J'])
    } else {
        None
    }
}

/// The canonical form of a `code.EX` symbol: six digits before the first dot and an
/// exchange suffix in any ASCII case after it.
pub open spec fn dotted_canonical(s: Seq<char>) -> Option<Seq<char>> {
    if exists|d: int| is_first_dot(s, d) {
        let d = choose|d: int| is_first_dot(s, d);
        let code = s.take(d);
        let suffix = suffix_ignoring_case(s.skip(d + 1));
        if suffix is Some && code.len() == 6 && all_digits(code) {
            Some(code + seq!['.'] + suffix->0)
        } else {
            None
        }
    } else {
        None
    }
}

/// The canonical form of an `sh600519` / `sz000001` symbol (prefix in any ASCII case).
pub open spec fn prefixed_canonical(s: Seq<char>) -> Option<Seq<char>> {
    if s.len() == 8 && all_digits(s.skip(2)) && (s[0] == 'S' || s[0] == 's') {
        if s[1] == 'H' || s[1] == 'h' {
            Some(s.skip(2) + seq!['.', 'S', 'H'])
        } else if s[1] == 'Z' || s[1] == 'z' {
            Some(s.skip(2) + seq!['.', 'S', 'Z'])
        } else {
            None
        }
    } else {
        None
    }
}

/// The unified `600519.SH` form of a symbol, where it has one.
pub open spec fn canonical_form(s: Seq<char>) -> Option<Seq<char>> {
    if dotted_canonical(s) is Some {
        dotted_canonical(s)
    } else {
        prefixed_canonical(s)
    }
}

/// Symbols on which slicing off the first two bytes stays on a character boundary.
pub open spec fn sliceable_symbol(symbol: &str) -> bool {
    symbol.spec_bytes().len() == 8 ==> is_char_boundary(symbol.spec_bytes(), 2)
}

/// The text of the error for a symbol that has no canonical form.
pub open spec fn not_canonical_message(s: Seq<char>) -> Seq<char> {
    "无法规范化股票代码 "@ + s
}

fn is_digit_char(c: char) -> (digit: bool)
    ensures
        digit == is_ascii_digit(c),
{
    '0' <= c && c <= '9'
}

/// Whether `chars[from..to]` are all ASCII digits.
fn digits_between(chars: &Vec<char>, from: usize, to: usize) -> (digits: bool)
    requires
        from <= to <= chars@.len(),
    ensures
        digits == all_digits(chars@.subrange(from as int, to as int)),
{
    for i in from..to
        invariant
            from <= to <= chars@.len(),
            forall|j: int| from <= j < i ==> is_ascii_digit(#[trigger] chars@[j]),
    {
        if !is_digit_char(chars[i]) {
            assert(!is_ascii_digit(chars@.subrange(from as int, to as int)[i - from]));
            return false;
        }
    }
    assert forall|j: int| 0 <= j < to - from implies is_ascii_digit(
        #[trigger] chars@.subrange(from as int, to as int)[j],
    ) by {
        assert(chars@.subrange(from as int, to as int)[j] == chars@[from + j]);
    }
    true
}

/// The canonical suffix for the two characters at `chars[at..at + 2]`.
fn suffix_at(chars: &Vec<char>, at: usize) -> (suffix: Option<&'static str>)
    requires
        at <= chars@.len(),
    ensures
        suffix matches Some(x) ==> Some(x@) == suffix_ignoring_case(chars@.skip(at as int)),
        suffix is None ==> suffix_ignoring_case(chars@.skip(at as int)) is None,
{
    let ghost ex = chars@.skip(at as int);
    if chars.len() - at != 2 {
        return None;
    }
    let a = chars[at];
    let b = chars[at + 1];
    assert(ex[0] == a && ex[1] == b);
    if (a == 'S' || a == 's') && (b == 'H' || b == 'h') {
        proof {
            reveal_strlit("SH");
        }
        Some("SH")
    } else if (a == 'S' || a == 's') && (b == 'Z' || b == 'z') {
        proof {
            reveal_strlit("SZ");
        }
        Some("SZ")
    } else if (a == 'B' || a == 'b') && (b == 'J' || b == 'j') {
        proof {
            reveal_strlit("BJ");
        }
        Some("BJ")
    } else {
        None
    }
}

/// Brings `600519.sh`, `sh600519` and `SZ000001`-style symbols into the unified
/// `600519.SH` form; anything else is an error.
pub fn canonical_symbol(symbol: &str) -> (canonical: Result<String, Error>)
    requires
        sliceable_symbol(symbol),
    ensures
        canonical is Ok <==> canonical_form(symbol@) is Some,
        canonical matches Ok(c) ==> c@ == canonical_form(symbol@)->0,
        canonical matches Err(e) ==> is_source_error(e, "http"@, not_canonical_message(symbol@)),
{
    let chars = chars_of(symbol);
    let ghost s = symbol@;
    // The dotted form: split at the first dot.
    let mut dot: usize = 0;
    while dot < chars.len() && chars[dot] != '.'
        invariant
            chars@ == s,
            dot <= chars@.len(),
            forall|j: int| 0 <= j < dot ==> chars@[j] != '.',
        decreases chars@.len() - dot,
    {
        dot = dot + 1;
    }
    if dot < chars.len() {
        assert(is_first_dot(s, dot as int));
        let ghost d = choose|d: int| is_first_dot(s, d);
        assert(d == dot) by {
            if d < dot {
                assert(s[d] != '.');
            } else if d > dot {
                assert(s[dot as int] != '.');
            }
        }
        let suffix = suffix_at(&chars, dot + 1);
        if let Some(suffix) = suffix {
            if dot == 6 && digits_between(&chars, 0, 6) {
                assert(chars@.subrange(0, 6) =~= s.take(6));
                let mut out = string_from_chars(&chars.as_slice()[0..6]);
                out.append(".");
                out.append(suffix);
                proof {
                    reveal_strlit(".");
                }
                return Ok(out);
            }
            assert(!(s.take(dot as int).len() == 6 && all_digits(s.take(dot as int)))) by {
                if dot == 6 {
                    assert(chars@.subrange(0, 6) =~= s.take(6));
                }
            }
        }
        assert(dotted_canonical(s) is None);
    } else {
        assert(!exists|d: int| is_first_dot(s, d));
    }
    // The prefixed form: two letters, then six digits.
    if chars.len() == 8 && digits_between(&chars, 2, 8) && (chars[0] == 'S' || chars[0] == 's') {
        assert(chars@.subrange(2, 8) =~= s.skip(2));
        if chars[1] == 'H' || chars[1] == 'h' {
            let mut out = string_from_chars(&chars.as_slice()[2..8]);
            out.append(".SH");
            proof {
                reveal_strlit(".SH");
            }
            return Ok(out);
        }
        if chars[1] == 'Z' || chars[1] == 'z' {
            let mut out = string_from_chars(&chars.as_slice()[2..8]);
            out.append(".SZ");
            proof {
                reveal_strlit(".SZ");
            }
            return Ok(out);
        }
    } else if chars.len() == 8 {
        assert(chars@.subrange(2, 8) =~= s.skip(2));
    }
    let mut message = "无法规范化股票代码 ".to_string();
    message.append(symbol);
    Err(Error::source_err("http", message.as_str()))
}

/// ASCII lower case of a canonical exchange suffix.
pub open spec fn lower_suffix(suffix: Seq<char>) -> Seq<char> {
    if suffix == seq!['S', 'H'] {
        seq!['s', 'h']
    } else if suffix == seq!['S', 'Z'] {
        seq!['s', 'z']
    } else {
        seq!['b', 'j']
    }
}

/// Tencent's notation of a symbol: the lower-case exchange followed by the code,
/// such as `sh600519`.
pub open spec fn tencent_form(canonical: Seq<char>) -> Seq<char> {
    lower_suffix(canonical.skip(7)) + canonical.take(6)
}

/// Every canonical form is six digits, a dot and one of the three suffixes.
pub proof fn lemma_canonical_shape(s: Seq<char>)
    requires
        canonical_form(s) is Some,
    ensures
        canonical_form(s)->0.len() == 9,
        all_digits(canonical_form(s)->0.take(6)),
        canonical_form(s)->0[6] == '.',
        canonical_form(s)->0.skip(7) == seq!['S', 'H'] || canonical_form(s)->0.skip(7) == seq![
            'S',
            'Z',
        ] || canonical_form(s)->0.skip(7) == seq!['B', 'J'],
{
    let c = canonical_form(s)->0;
    if dotted_canonical(s) is Some {
        let d = choose|d: int| is_first_dot(s, d);
        let suffix = suffix_ignoring_case(s.skip(d + 1))->0;
        assert(c =~= s.take(d) + seq!['.'] + suffix);
        assert(c.take(6) =~= s.take(d));
        assert(c.skip(7) =~= suffix);
    } else {
        assert(c.take(6) =~= s.skip(2));
        assert(c.skip(7) =~= seq!['S', 'H'] || c.skip(7) =~= seq!['S', 'Z']);
    }
}

/// The symbol in Tencent's `sh600519` notation.
pub fn tencent_symbol(symbol: &str) -> (tencent: Result<String, Error>)
    requires
        sliceable_symbol(symbol),
    ensures
        tencent is Ok <==> canonical_form(symbol@) is Some,
        tencent matches Ok(t) ==> t@ == tencent_form(canonical_form(symbol@)->0),
        tencent matches Err(e) ==> is_source_error(e, "http"@, not_canonical_message(symbol@)),
{
    let canonical = canonical_symbol(symbol)?;
    proof {
        lemma_canonical_shape(symbol@);
    }
    let chars = chars_of(canonical.as_str());
    let ghost c = chars@;
    let prefix = if chars[7] == 'S' && chars[8] == 'H' {
        assert(c.skip(7) =~= seq!['S', 'H']);
        "sh"
    } else if chars[7] == 'S' && chars[8] == 'Z' {
        assert(c.skip(7) =~= seq!['S', 'Z']);
        "sz"
    } else {
        assert(c.skip(7) =~= seq!['B', 'J']);
        "bj"
    };
    proof {
        reveal_strlit("sh");
        reveal_strlit("sz");
        reveal_strlit("bj");
    }
    let mut out = prefix.to_string();
    out.append(string_from_chars(&chars.as_slice()[0..6]).as_str());
    assert(chars@.subrange(0, 6) =~= c.take(6));
    Ok(out)
}

/// Response text for error messages: at most 300 bytes, then `...` when cut.
pub fn truncate(value: &str) -> (excerpt: String)
    requires
        value.spec_bytes().len() <= usize::MAX,
        value.spec_bytes().len() > 300 ==> is_char_boundary(value.spec_bytes(), 300),
    ensures
        value.spec_bytes().len() <= 300 ==> excerpt@ == value@,
        value.spec_bytes().len() > 300 ==> excerpt@ == decode_utf8(
            value.spec_bytes().subrange(0, 300),
        ) + "..."@,
{
    if value.len() <= 300 {
        value.to_string()
    } else {
        let (head, _) = value.split_at(300);
        proof {
            vstd::utf8::encode_utf8_decode_utf8(head@);
            assert(head.spec_bytes() == value.spec_bytes().subrange(0, 300));
            assert(decode_utf8(value.spec_bytes().subrange(0, 300)) == head@);
        }
        let mut excerpt = head.to_string();
        assert(excerpt@ == head@);
        excerpt.append("...");
        assert(excerpt@ == head@ + "..."@);
        excerpt
    }
}

/// The text of the error for a dataset that an adapter does not implement.
pub open spec fn unsupported_message(dataset: Dataset) -> Seq<char> {
    "当前适配器尚未实现数据集 "@ + dataset_name(dataset)
}

/// The error for a dataset that the adapter of `source` does not implement.
pub fn unsupported<T>(source: &str, dataset: Dataset) -> (result: Result<T, Error>)
    ensures
        result matches Err(e) && is_source_error(e, source@, unsupported_message(dataset)),
{
    let mut message = "当前适配器尚未实现数据集 ".to_string();
    message.append(dataset.as_str());
    Err(Error::source_err(source, message.as_str()))
}

/// The position of the column `name` in a response's field list.
pub fn field_index(fields: &[String], name: &str, source: &str) -> (index: Result<usize, Error>)
    ensures
        index matches Ok(i) ==> i < fields@.len() && fields@[i as int]@ == name@ && forall|j: int|
            0 <= j < i ==> (#[trigger] fields@[j])@ != name@,
        index is Err <==> forall|j: int| 0 <= j < fields@.len() ==> (#[trigger] fields@[j])@ != name@,
        index matches Err(e) ==> is_source_error(e, source@, "响应缺少字段 "@ + name@),
{
    for i in 0..fields.len()
        invariant
            forall|j: int| 0 <= j < i ==> (#[trigger] fields@[j])@ != name@,
    {
        if str_eq(fields[i].as_str(), name) {
            return Ok(i);
        }
    }
    let mut message = "响应缺少字段 ".to_string();
    message.append(name);
    Err(Error::source_err(source, message.as_str()))
}

/// The fetch specification that an adapter reports for `dataset` of `config`: only daily
/// bars are incremental and carry the registry probe.
pub open spec fn spec_for(config: SourceConfig, dataset: Dataset, spec: DatasetSpec) -> bool {
    &&& spec.dataset == dataset
    &&& spec.incremental == (dataset == Dataset::Daily)
    &&& if dataset == Dataset::Daily {
        match config.probe {
            Some(p) => spec.probe matches Some(q) && q.symbol@ == p.symbol@ && q.lookback_days
                == p.lookback_days,
            None => spec.probe is None,
        }
    } else {
        spec.probe is None
    }
}

/// The capabilities of the adapter configured by `config`.
pub fn capabilities(config: &SourceConfig) -> (caps: SourceCapabilities)
    ensures
        caps.name@ == config.name@,
        caps.datasets@ == config.datasets@,
        caps.specs@.len() == config.datasets@.len(),
        forall|i: int|
            0 <= i < caps.specs@.len() ==> spec_for(
                *config,
                config.datasets@[i],
                #[trigger] caps.specs@[i],
            ),
{
    let mut datasets: Vec<Dataset> = Vec::new();
    let mut specs: Vec<DatasetSpec> = Vec::new();
    for i in 0..config.datasets.len()
        invariant
            datasets@ == config.datasets@.take(i as int),
            specs@.len() == i,
            forall|j: int|
                0 <= j < i ==> spec_for(*config, config.datasets@[j], #[trigger] specs@[j]),
    {
        let dataset = config.datasets[i];
        let probe = if dataset == Dataset::Daily {
            match &config.probe {
                Some(p) => Some(
                    DatasetProbe { symbol: p.symbol.as_str().to_string(), lookback_days: p.lookback_days },
                ),
                None => None,
            }
        } else {
            None
        };
        specs.push(DatasetSpec { dataset, incremental: dataset == Dataset::Daily, probe });
        datasets.push(dataset);
        assert(config.datasets@.take(i as int).push(dataset) =~= config.datasets@.take(i + 1));
    }
    assert(config.datasets@.take(config.datasets@.len() as int) =~= config.datasets@);
    SourceCapabilities {
        name: config.name.as_str().to_string(),
        datasets,
        specs,
    }
}

} // verus!
