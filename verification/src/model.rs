//! The mathematical model of a scan.
//!
//! A scan is specified as a recursive function over the input character
//! sequence.  The model state holds the finished records, the pending
//! fields, the pending values, and the flag the blank-line rule keeps;
//! one recursive step per consumed run of characters applies the boundary
//! rules in their priority order.  The executable scanner in
//! [`crate::parsing`] promises to return exactly what this model says.

use vstd::prelude::*;
use crate::chars::{numeric_char, symbol_char, symbol_start_char, whitespace_char};
use crate::data::{Div, Entry};

verus! {

/// Model of the quoting options: the optional escape character and the
/// set of quote delimiters.
pub ghost struct QuoteModel {
    pub escape_char: Option<char>,
    pub quote_chars: Seq<char>,
}

/// Model of a whole configuration.
pub ghost struct OptionsModel {
    pub strings: Option<QuoteModel>,
    pub record_div: Div,
    pub field_div: Seq<char>,
    pub preserve_spacing: bool,
    pub endline: char,
}

/// Model of one classified value: the text of a run, the resolved text of
/// a quoted string, or a single preserved character.
pub ghost enum ValueModel {
    VString(Seq<char>),
    VSymbol(Seq<char>),
    VNumber(Seq<char>),
    VSpace(char),
    VPunct(char),
}

/// The records a scan produces: each record is a sequence of fields, each
/// field a sequence of classified values.
pub type RecordsModel = Seq<Seq<Seq<ValueModel>>>;

/// The state the boundary detector carries between steps.
pub ghost struct ScanState {
    pub records: RecordsModel,
    pub fields: Seq<Seq<ValueModel>>,
    pub values: Seq<ValueModel>,
    pub last_was_endline: bool,
}

/// The state a scan starts from: everything empty.
pub open spec fn initial_state() -> ScanState {
    ScanState {
        records: seq![],
        fields: seq![],
        values: seq![],
        last_was_endline: false,
    }
}

/// Close the pending values into a field, unconditionally: two adjacent
/// dividers produce an intentionally empty field.
pub open spec fn close_field(st: ScanState) -> ScanState {
    ScanState { fields: st.fields.push(st.values), values: seq![], ..st }
}

/// Close the pending values into a field only if there are any.
pub open spec fn close_field_if_nonempty(st: ScanState) -> ScanState {
    if st.values.len() > 0 {
        close_field(st)
    } else {
        st
    }
}

/// Close the pending fields into a record, unconditionally: a record may
/// have zero fields.
pub open spec fn close_record(st: ScanState) -> ScanState {
    ScanState { records: st.records.push(st.fields), fields: seq![], ..st }
}

/// Append one finished value to the pending values.
pub open spec fn push_value(st: ScanState, v: ValueModel) -> ScanState {
    ScanState { values: st.values.push(v), ..st }
}

/// Whether quoting is enabled and `c` opens a quoted run.
pub open spec fn quote_start(cfg: OptionsModel, c: char) -> bool {
    match cfg.strings {
        Some(q) => q.quote_chars.contains(c),
        None => false,
    }
}

/// The configured escape character, if quoting with escapes is enabled.
pub open spec fn escape_of(cfg: OptionsModel) -> Option<char> {
    match cfg.strings {
        Some(q) => q.escape_char,
        None => None,
    }
}

/// The configured quote delimiters, empty when quoting is disabled.
pub open spec fn quotes_of(cfg: OptionsModel) -> Seq<char> {
    match cfg.strings {
        Some(q) => q.quote_chars,
        None => seq![],
    }
}

/// The first position at or after `i` whose character fails `pred`; the
/// characters of `[i, run_end)` form the maximal run satisfying `pred`.
pub open spec fn run_end(input: Seq<char>, i: int, pred: spec_fn(char) -> bool) -> int
    decreases input.len() - i,
{
    if 0 <= i < input.len() && pred(input[i]) {
        run_end(input, i + 1, pred)
    } else {
        i
    }
}

/// The class of characters a number run consumes.
pub open spec fn numeric_pred() -> spec_fn(char) -> bool {
    |c: char| numeric_char(c)
}

/// The class of characters a symbol run consumes once started.
pub open spec fn symbol_pred() -> spec_fn(char) -> bool {
    |c: char| symbol_char(c)
}

/// What `run_end` returns: a position within bounds, all characters
/// before it in the run satisfy `pred`, and the run is maximal.
pub proof fn lemma_run_end_bounds(input: Seq<char>, i: int, pred: spec_fn(char) -> bool)
    requires
        0 <= i <= input.len(),
    ensures
        i <= run_end(input, i, pred) <= input.len(),
        forall|j: int| i <= j < run_end(input, i, pred) ==> pred(input[j]),
        run_end(input, i, pred) < input.len() ==> !pred(input[run_end(input, i, pred)]),
        i < input.len() && pred(input[i]) ==> run_end(input, i, pred) > i,
    decreases input.len() - i,
{
    if 0 <= i < input.len() && pred(input[i]) {
        lemma_run_end_bounds(input, i + 1, pred);
    }
}

/// The quoted-text sub-scanner, positioned just after the opening quote.
///
/// `pending` holds an escape character that has been consumed but not yet
/// resolved.  The scan ends at the first unescaped quote delimiter and
/// returns the resolved text with the position after that delimiter; it
/// returns `None` when the input ends first.
pub open spec fn scan_string(
    input: Seq<char>,
    i: int,
    pending: Option<char>,
    acc: Seq<char>,
    escape: Option<char>,
    quotes: Seq<char>,
) -> Option<(Seq<char>, int)>
    decreases input.len() - i,
{
    if !(0 <= i < input.len()) {
        None
    } else {
        let c = input[i];
        match pending {
            Some(p) => {
                if quotes.contains(c) || escape == Some(c) {
                    scan_string(input, i + 1, None, acc.push(c), escape, quotes)
                } else {
                    scan_string(input, i + 1, None, acc.push(p).push(c), escape, quotes)
                }
            },
            None => {
                if quotes.contains(c) {
                    Some((acc, i + 1))
                } else if escape == Some(c) {
                    scan_string(input, i + 1, Some(c), acc, escape, quotes)
                } else {
                    scan_string(input, i + 1, None, acc.push(c), escape, quotes)
                }
            },
        }
    }
}

/// A successful quoted-text scan consumes at least the closing delimiter
/// and never runs past the end of the input.
pub proof fn lemma_scan_string_advances(
    input: Seq<char>,
    i: int,
    pending: Option<char>,
    acc: Seq<char>,
    escape: Option<char>,
    quotes: Seq<char>,
)
    ensures
        scan_string(input, i, pending, acc, escape, quotes) matches Some(r) ==> i < r.1
            <= input.len(),
    decreases input.len() - i,
{
    if 0 <= i < input.len() {
        let c = input[i];
        match pending {
            Some(p) => {
                if quotes.contains(c) || escape == Some(c) {
                    lemma_scan_string_advances(input, i + 1, None, acc.push(c), escape, quotes);
                } else {
                    lemma_scan_string_advances(
                        input,
                        i + 1,
                        None,
                        acc.push(p).push(c),
                        escape,
                        quotes,
                    );
                }
            },
            None => {
                if quotes.contains(c) {
                } else if escape == Some(c) {
                    lemma_scan_string_advances(input, i + 1, Some(c), acc, escape, quotes);
                } else {
                    lemma_scan_string_advances(input, i + 1, None, acc.push(c), escape, quotes);
                }
            },
        }
    }
}

/// One whole scan from position `i` in state `st`, applying the boundary
/// rules in priority order: end of input, record boundary (one rule per
/// mode, with the blank-line two-separator rule), field divider,
/// whitespace, digit run, symbol run, quoted text, and the punctuation
/// fallback.  `None` means the scan failed on an unterminated string.
pub open spec fn scan_from(
    input: Seq<char>,
    cfg: OptionsModel,
    i: int,
    st: ScanState,
) -> Option<RecordsModel>
    decreases input.len() - i,
{
    if !(0 <= i < input.len()) {
        let st1 = close_field_if_nonempty(st);
        let st2 = if st1.fields.len() > 0 {
            close_record(st1)
        } else {
            st1
        };
        Some(st2.records)
    } else {
        let c = input[i];
        if cfg.record_div is BlankLine && st.last_was_endline && c == cfg.endline {
            scan_from(input, cfg, i + 1, close_record(close_field_if_nonempty(st)))
        } else {
            let st1 = if cfg.record_div is BlankLine {
                ScanState { last_was_endline: c == cfg.endline, ..st }
            } else {
                st
            };
            if cfg.record_div is EndLine && c == cfg.endline {
                scan_from(input, cfg, i + 1, close_record(close_field_if_nonempty(st1)))
            } else if cfg.field_div.contains(c) {
                scan_from(input, cfg, i + 1, close_field(st1))
            } else if cfg.preserve_spacing && whitespace_char(c) {
                scan_from(input, cfg, i + 1, push_value(st1, ValueModel::VSpace(c)))
            } else if whitespace_char(c) {
                scan_from(input, cfg, i + 1, st1)
            } else if numeric_char(c) {
                let j = run_end(input, i, numeric_pred());
                proof {
                    lemma_run_end_bounds(input, i, numeric_pred());
                }
                scan_from(input, cfg, j, push_value(st1, ValueModel::VNumber(input.subrange(i, j))))
            } else if symbol_start_char(c) {
                let j = run_end(input, i, symbol_pred());
                proof {
                    lemma_run_end_bounds(input, i, symbol_pred());
                }
                scan_from(input, cfg, j, push_value(st1, ValueModel::VSymbol(input.subrange(i, j))))
            } else if quote_start(cfg, c) {
                match scan_string(input, i + 1, None, seq![], escape_of(cfg), quotes_of(cfg)) {
                    Some(r) => {
                        proof {
                            lemma_scan_string_advances(
                                input,
                                i + 1,
                                None,
                                seq![],
                                escape_of(cfg),
                                quotes_of(cfg),
                            );
                        }
                        scan_from(input, cfg, r.1, push_value(st1, ValueModel::VString(r.0)))
                    },
                    None => None,
                }
            } else {
                scan_from(input, cfg, i + 1, push_value(st1, ValueModel::VPunct(c)))
            }
        }
    }
}

/// The model of a whole scan of `input` under `cfg`.
pub open spec fn scan(input: Seq<char>, cfg: OptionsModel) -> Option<RecordsModel> {
    scan_from(input, cfg, 0, initial_state())
}

// --- the shape of the returned tree ---

/// The model a `Value` entry carries.
pub open spec fn value_entry_model(e: Entry) -> ValueModel {
    match e {
        Entry::Value(v) => v@,
        _ => arbitrary(),
    }
}

/// Every element is a `Value` entry.
pub open spec fn values_wf(vs: Seq<Entry>) -> bool {
    forall|j: int| 0 <= j < vs.len() ==> (#[trigger] vs[j]) is Value
}

/// The models of a sequence of `Value` entries, in order.
pub open spec fn values_model(vs: Seq<Entry>) -> Seq<ValueModel> {
    Seq::new(vs.len(), |j: int| value_entry_model(vs[j]))
}

/// A field entry: a `Field` wrapping exactly one `List` of values.
pub open spec fn field_entry_wf(e: Entry) -> bool {
    &&& e matches Entry::Field(inner)
    &&& inner@.len() == 1
    &&& (inner@[0] matches Entry::List(vs) && values_wf(vs@))
}

/// The values a field entry carries.
pub open spec fn field_entry_model(e: Entry) -> Seq<ValueModel> {
    match e {
        Entry::Field(inner) => match inner@[0] {
            Entry::List(vs) => values_model(vs@),
            _ => arbitrary(),
        },
        _ => arbitrary(),
    }
}

/// Every element is a well-shaped field entry.
pub open spec fn fields_wf(fs: Seq<Entry>) -> bool {
    forall|j: int| 0 <= j < fs.len() ==> field_entry_wf(#[trigger] fs[j])
}

/// The models of a sequence of field entries, in order.
pub open spec fn fields_model(fs: Seq<Entry>) -> Seq<Seq<ValueModel>> {
    Seq::new(fs.len(), |j: int| field_entry_model(fs[j]))
}

/// A record entry: a `Record` wrapping exactly one `List` of fields.
pub open spec fn record_entry_wf(e: Entry) -> bool {
    &&& e matches Entry::Record(inner)
    &&& inner@.len() == 1
    &&& (inner@[0] matches Entry::List(fs) && fields_wf(fs@))
}

/// The fields a record entry carries.
pub open spec fn record_entry_model(e: Entry) -> Seq<Seq<ValueModel>> {
    match e {
        Entry::Record(inner) => match inner@[0] {
            Entry::List(fs) => fields_model(fs@),
            _ => arbitrary(),
        },
        _ => arbitrary(),
    }
}

/// Every element is a well-shaped record entry.
pub open spec fn records_wf(rs: Seq<Entry>) -> bool {
    forall|j: int| 0 <= j < rs.len() ==> record_entry_wf(#[trigger] rs[j])
}

/// The models of a sequence of record entries, in order.
pub open spec fn records_model(rs: Seq<Entry>) -> RecordsModel {
    Seq::new(rs.len(), |j: int| record_entry_model(rs[j]))
}

/// A well-shaped scan result: a `List` of well-shaped record entries.
pub open spec fn scan_tree_wf(e: Entry) -> bool {
    e matches Entry::List(rs) && records_wf(rs@)
}

/// The records a well-shaped scan result carries.
pub open spec fn scan_tree_model(e: Entry) -> RecordsModel {
    match e {
        Entry::List(rs) => records_model(rs@),
        _ => arbitrary(),
    }
}

/// What a successful scan of `input` under `cfg` says of a returned
/// tree: it is well shaped and carries exactly the records of the model.
pub open spec fn scan_produces(input: Seq<char>, cfg: OptionsModel, e: Entry) -> bool {
    &&& scan(input, cfg) matches Some(recs)
    &&& scan_tree_wf(e)
    &&& scan_tree_model(e) == recs
}

/// The model state that the scanner's three buffers and flag stand for.
pub open spec fn buffers_state(
    records: Seq<Entry>,
    fields: Seq<Entry>,
    values: Seq<Entry>,
    last: bool,
) -> ScanState {
    ScanState {
        records: records_model(records),
        fields: fields_model(fields),
        values: values_model(values),
        last_was_endline: last,
    }
}

/// The three buffer models are empty on empty buffers.
pub proof fn lemma_models_empty()
    ensures
        values_model(Seq::<Entry>::empty()) == Seq::<ValueModel>::empty(),
        fields_model(Seq::<Entry>::empty()) == Seq::<Seq<ValueModel>>::empty(),
        records_model(Seq::<Entry>::empty()) == Seq::<Seq<Seq<ValueModel>>>::empty(),
{
    assert(values_model(Seq::<Entry>::empty()) =~= Seq::<ValueModel>::empty());
    assert(fields_model(Seq::<Entry>::empty()) =~= Seq::<Seq<ValueModel>>::empty());
    assert(records_model(Seq::<Entry>::empty()) =~= Seq::<Seq<Seq<ValueModel>>>::empty());
}

/// Appending a value entry appends its model, and keeps the buffer well
/// shaped.
pub proof fn lemma_values_push(vs: Seq<Entry>, e: Entry)
    requires
        values_wf(vs),
        e is Value,
    ensures
        values_wf(vs.push(e)),
        values_model(vs.push(e)) == values_model(vs).push(value_entry_model(e)),
{
    assert forall|j: int| 0 <= j < vs.push(e).len() implies (#[trigger] vs.push(e)[j]) is Value by {
        if j < vs.len() {
            assert(vs.push(e)[j] == vs[j]);
        } else {
            assert(vs.push(e)[j] == e);
        }
    }
    assert(values_model(vs.push(e)) =~= values_model(vs).push(value_entry_model(e)));
}

/// Appending a field entry appends its model, and keeps the buffer well
/// shaped.
pub proof fn lemma_fields_push(fs: Seq<Entry>, e: Entry)
    requires
        fields_wf(fs),
        field_entry_wf(e),
    ensures
        fields_wf(fs.push(e)),
        fields_model(fs.push(e)) == fields_model(fs).push(field_entry_model(e)),
{
    assert forall|j: int| 0 <= j < fs.push(e).len() implies field_entry_wf(
        #[trigger] fs.push(e)[j],
    ) by {
        if j < fs.len() {
            assert(fs.push(e)[j] == fs[j]);
        } else {
            assert(fs.push(e)[j] == e);
        }
    }
    assert(fields_model(fs.push(e)) =~= fields_model(fs).push(field_entry_model(e)));
}

/// Appending a record entry appends its model, and keeps the buffer well
/// shaped.
pub proof fn lemma_records_push(rs: Seq<Entry>, e: Entry)
    requires
        records_wf(rs),
        record_entry_wf(e),
    ensures
        records_wf(rs.push(e)),
        records_model(rs.push(e)) == records_model(rs).push(record_entry_model(e)),
{
    assert forall|j: int| 0 <= j < rs.push(e).len() implies record_entry_wf(
        #[trigger] rs.push(e)[j],
    ) by {
        if j < rs.len() {
            assert(rs.push(e)[j] == rs[j]);
        } else {
            assert(rs.push(e)[j] == e);
        }
    }
    assert(records_model(rs.push(e)) =~= records_model(rs).push(record_entry_model(e)));
}

} // verus!
