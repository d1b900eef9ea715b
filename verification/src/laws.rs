//! Proved laws of the scan model.
//!
//! These theorems hold of [`crate::model::scan`], and through the
//! contract of [`crate::parsing::parse_records`] of every tree the
//! scanner returns: a scan without quoting always succeeds; two scans of
//! one input and configuration agree; a plain input yields one record
//! with one field of runs read off the character classes; and the text
//! of the produced values reproduces the input up to its dividers.

use vstd::prelude::*;
use crate::chars::{numeric_char, symbol_char, symbol_start_char, whitespace_char};
use crate::data::Entry;
use crate::model::{
    close_field, close_field_if_nonempty, close_record, initial_state, lemma_run_end_bounds,
    numeric_pred, push_value, quote_start, run_end, scan, scan_from, scan_produces,
    scan_tree_model, symbol_pred, OptionsModel, RecordsModel, ScanState, ValueModel,
};

verus! {

// --- determinism ---

/// Repeated scans of one input under one configuration yield
/// structurally equal trees: any two well-shaped trees a scan of the
/// pair may return carry the same records, fields and values.
pub proof fn lemma_scan_deterministic(
    input: Seq<char>,
    cfg: OptionsModel,
    e1: Entry,
    e2: Entry,
)
    requires
        scan_produces(input, cfg, e1),
        scan_produces(input, cfg, e2),
    ensures
        scan_tree_model(e1) == scan_tree_model(e2),
{
}

// --- success is owed whenever no quote opens ---

/// From any state, a scan of input in which no character opens a quoted
/// run succeeds.
proof fn lemma_scan_from_total_without_quotes(
    input: Seq<char>,
    cfg: OptionsModel,
    i: int,
    st: ScanState,
)
    requires
        0 <= i <= input.len(),
        forall|k: int| 0 <= k < input.len() ==> !quote_start(cfg, #[trigger] input[k]),
    ensures
        scan_from(input, cfg, i, st) is Some,
    decreases input.len() - i,
{
    if i < input.len() {
        let c = input[i];
        if cfg.record_div is BlankLine && st.last_was_endline && c == cfg.endline {
            lemma_scan_from_total_without_quotes(
                input,
                cfg,
                i + 1,
                close_record(close_field_if_nonempty(st)),
            );
        } else {
            let st1 = if cfg.record_div is BlankLine {
                ScanState { last_was_endline: c == cfg.endline, ..st }
            } else {
                st
            };
            if cfg.record_div is EndLine && c == cfg.endline {
                lemma_scan_from_total_without_quotes(
                    input,
                    cfg,
                    i + 1,
                    close_record(close_field_if_nonempty(st1)),
                );
            } else if cfg.field_div.contains(c) {
                lemma_scan_from_total_without_quotes(input, cfg, i + 1, close_field(st1));
            } else if cfg.preserve_spacing && whitespace_char(c) {
                lemma_scan_from_total_without_quotes(
                    input,
                    cfg,
                    i + 1,
                    push_value(st1, ValueModel::VSpace(c)),
                );
            } else if whitespace_char(c) {
                lemma_scan_from_total_without_quotes(input, cfg, i + 1, st1);
            } else if numeric_char(c) {
                let j = run_end(input, i, numeric_pred());
                lemma_run_end_bounds(input, i, numeric_pred());
                lemma_scan_from_total_without_quotes(
                    input,
                    cfg,
                    j,
                    push_value(st1, ValueModel::VNumber(input.subrange(i, j))),
                );
            } else if symbol_start_char(c) {
                let j = run_end(input, i, symbol_pred());
                lemma_run_end_bounds(input, i, symbol_pred());
                lemma_scan_from_total_without_quotes(
                    input,
                    cfg,
                    j,
                    push_value(st1, ValueModel::VSymbol(input.subrange(i, j))),
                );
            } else {
                assert(!quote_start(cfg, c));
                lemma_scan_from_total_without_quotes(
                    input,
                    cfg,
                    i + 1,
                    push_value(st1, ValueModel::VPunct(c)),
                );
            }
        }
    }
}

/// A scan can fail only inside a quoted run: on input in which no
/// character opens one, the scan succeeds.
pub proof fn lemma_scan_total_without_quotes(input: Seq<char>, cfg: OptionsModel)
    requires
        forall|k: int| 0 <= k < input.len() ==> !quote_start(cfg, #[trigger] input[k]),
    ensures
        scan(input, cfg) is Some,
{
    lemma_scan_from_total_without_quotes(input, cfg, 0, initial_state());
}

// --- plain input: one record, one field, runs off the classes ---

/// No character of `input` acts as a boundary under `cfg`: none is the
/// line terminator, a field divider, whitespace, or an opening quote.
pub open spec fn plain_input(input: Seq<char>, cfg: OptionsModel) -> bool {
    forall|k: int| 0 <= k < input.len() ==> {
        let c = #[trigger] input[k];
        &&& c != cfg.endline
        &&& !cfg.field_div.contains(c)
        &&& !whitespace_char(c)
        &&& !quote_start(cfg, c)
    }
}

/// The values a plain input produces from position `i` on, read off the
/// character classes alone: a maximal digit run becomes a `Number`, a
/// maximal symbol run a `Symbol`, and any other character a `Punct`.
pub open spec fn simple_runs(input: Seq<char>, i: int) -> Seq<ValueModel>
    decreases input.len() - i,
{
    if !(0 <= i < input.len()) {
        seq![]
    } else {
        let c = input[i];
        if numeric_char(c) {
            let j = run_end(input, i, numeric_pred());
            proof {
                lemma_run_end_bounds(input, i, numeric_pred());
            }
            seq![ValueModel::VNumber(input.subrange(i, j))] + simple_runs(input, j)
        } else if symbol_start_char(c) {
            let j = run_end(input, i, symbol_pred());
            proof {
                lemma_run_end_bounds(input, i, symbol_pred());
            }
            seq![ValueModel::VSymbol(input.subrange(i, j))] + simple_runs(input, j)
        } else {
            seq![ValueModel::VPunct(c)] + simple_runs(input, i + 1)
        }
    }
}

/// Read one character out of a sequence in proof code.
proof fn seq_char_at(s: Seq<char>, i: int) -> (c: char)
    requires
        0 <= i < s.len(),
    ensures
        c == s[i],
{
    s[i]
}

/// From any state with no finished records or fields, a plain scan ends
/// with a single record holding a single field: the pending values
/// followed by the runs of the rest of the input.
proof fn lemma_plain_scan_from(input: Seq<char>, cfg: OptionsModel, i: int, st: ScanState)
    requires
        plain_input(input, cfg),
        0 <= i <= input.len(),
        st.records == Seq::<Seq<Seq<ValueModel>>>::empty(),
        st.fields == Seq::<Seq<ValueModel>>::empty(),
        st.values.len() > 0 || i < input.len(),
    ensures
        scan_from(input, cfg, i, st) == Some(seq![seq![st.values + simple_runs(input, i)]]),
    decreases input.len() - i,
{
    if i >= input.len() {
        assert(simple_runs(input, i) == Seq::<ValueModel>::empty());
        assert(st.values + simple_runs(input, i) =~= st.values);
        let st1 = close_field(st);
        let st2 = close_record(st1);
        assert(scan_from(input, cfg, i, st) == Some(st2.records));
        assert(st2.records =~= seq![seq![st.values]]);
    } else {
        let c = seq_char_at(input, i);
        assert(c != cfg.endline && !cfg.field_div.contains(c) && !whitespace_char(c)
            && !quote_start(cfg, c));
        let st1 = if cfg.record_div is BlankLine {
            ScanState { last_was_endline: false, ..st }
        } else {
            st
        };
        if numeric_char(c) {
            let j = run_end(input, i, numeric_pred());
            lemma_run_end_bounds(input, i, numeric_pred());
            let v = ValueModel::VNumber(input.subrange(i, j));
            assert(push_value(st1, v).values.len() > 0);
            lemma_plain_scan_from(input, cfg, j, push_value(st1, v));
            assert(st.values.push(v) =~= st.values + seq![v]);
            assert((st.values + seq![v]) + simple_runs(input, j) =~= st.values + (seq![v]
                + simple_runs(input, j)));
            assert(simple_runs(input, i) == seq![v] + simple_runs(input, j));
            assert(scan_from(input, cfg, i, st) == scan_from(input, cfg, j, push_value(st1, v)));
        } else if symbol_start_char(c) {
            let j = run_end(input, i, symbol_pred());
            lemma_run_end_bounds(input, i, symbol_pred());
            let v = ValueModel::VSymbol(input.subrange(i, j));
            assert(push_value(st1, v).values.len() > 0);
            lemma_plain_scan_from(input, cfg, j, push_value(st1, v));
            assert(st.values.push(v) =~= st.values + seq![v]);
            assert((st.values + seq![v]) + simple_runs(input, j) =~= st.values + (seq![v]
                + simple_runs(input, j)));
            assert(simple_runs(input, i) == seq![v] + simple_runs(input, j));
            assert(scan_from(input, cfg, i, st) == scan_from(input, cfg, j, push_value(st1, v)));
        } else {
            let v = ValueModel::VPunct(c);
            assert(push_value(st1, v).values.len() > 0);
            lemma_plain_scan_from(input, cfg, i + 1, push_value(st1, v));
            assert(st.values.push(v) =~= st.values + seq![v]);
            assert((st.values + seq![v]) + simple_runs(input, i + 1) =~= st.values + (seq![v]
                + simple_runs(input, i + 1)));
            assert(simple_runs(input, i) == seq![v] + simple_runs(input, i + 1));
            assert(scan_from(input, cfg, i, st) == scan_from(
                input,
                cfg,
                i + 1,
                push_value(st1, v),
            ));
        }
    }
}

/// For input with no dividers, quoting or whitespace, a scan produces
/// exactly one record with exactly one field, whose values are the
/// input's maximal digit runs, maximal symbol runs and single
/// punctuation characters, in input order.
pub proof fn lemma_plain_input_single_field(input: Seq<char>, cfg: OptionsModel)
    requires
        plain_input(input, cfg),
        input.len() > 0,
    ensures
        scan(input, cfg) == Some(seq![seq![simple_runs(input, 0)]]),
{
    lemma_plain_scan_from(input, cfg, 0, initial_state());
    assert(Seq::<ValueModel>::empty() + simple_runs(input, 0) =~= simple_runs(input, 0));
}

/// What one value of a plain scan may look like: a `Number` carries a
/// non-empty run of numeric characters, a `Symbol` a non-empty run that
/// starts with a letter or underscore and continues with symbol
/// characters, and a `Punct` one character of neither class.  `String`
/// and `Space` values never occur.
pub open spec fn simple_value_ok(v: ValueModel) -> bool {
    match v {
        ValueModel::VNumber(s) => s.len() > 0 && forall|k: int|
            0 <= k < s.len() ==> numeric_char(#[trigger] s[k]),
        ValueModel::VSymbol(s) => s.len() > 0 && symbol_start_char(s[0]) && forall|k: int|
            0 <= k < s.len() ==> symbol_char(#[trigger] s[k]),
        ValueModel::VPunct(c) => !numeric_char(c) && !symbol_start_char(c),
        _ => false,
    }
}

/// Every value of a plain scan matches its characters' classes, as
/// [`simple_value_ok`] says; maximality of the runs is what
/// [`crate::model::run_end`] gives.
pub proof fn lemma_simple_runs_classes(input: Seq<char>, i: int)
    requires
        0 <= i <= input.len(),
    ensures
        forall|m: int|
            0 <= m < simple_runs(input, i).len() ==> simple_value_ok(
                #[trigger] simple_runs(input, i)[m],
            ),
    decreases input.len() - i,
{
    if 0 <= i < input.len() {
        let c = seq_char_at(input, i);
        if numeric_char(c) {
            let j = run_end(input, i, numeric_pred());
            lemma_run_end_bounds(input, i, numeric_pred());
            let s = input.subrange(i, j);
            assert forall|k: int| 0 <= k < s.len() implies numeric_char(#[trigger] s[k]) by {
                assert(s[k] == input[i + k]);
                assert(numeric_pred()(input[i + k]));
            }
            let v = ValueModel::VNumber(s);
            assert(simple_value_ok(v));
            lemma_simple_runs_classes(input, j);
            assert forall|m: int| 0 <= m < simple_runs(input, i).len() implies simple_value_ok(
                #[trigger] simple_runs(input, i)[m],
            ) by {
                if m == 0 {
                    assert(simple_runs(input, i)[0] == v);
                } else {
                    assert(simple_runs(input, i)[m] == simple_runs(input, j)[m - 1]);
                }
            }
        } else if symbol_start_char(c) {
            let j = run_end(input, i, symbol_pred());
            lemma_run_end_bounds(input, i, symbol_pred());
            let s = input.subrange(i, j);
            assert(s[0] == input[i]);
            assert forall|k: int| 0 <= k < s.len() implies symbol_char(#[trigger] s[k]) by {
                assert(s[k] == input[i + k]);
                assert(symbol_pred()(input[i + k]));
            }
            let v = ValueModel::VSymbol(s);
            assert(simple_value_ok(v));
            lemma_simple_runs_classes(input, j);
            assert forall|m: int| 0 <= m < simple_runs(input, i).len() implies simple_value_ok(
                #[trigger] simple_runs(input, i)[m],
            ) by {
                if m == 0 {
                    assert(simple_runs(input, i)[0] == v);
                } else {
                    assert(simple_runs(input, i)[m] == simple_runs(input, j)[m - 1]);
                }
            }
        } else {
            let v = ValueModel::VPunct(c);
            assert(simple_value_ok(v));
            lemma_simple_runs_classes(input, i + 1);
            assert forall|m: int| 0 <= m < simple_runs(input, i).len() implies simple_value_ok(
                #[trigger] simple_runs(input, i)[m],
            ) by {
                if m == 0 {
                    assert(simple_runs(input, i)[0] == v);
                } else {
                    assert(simple_runs(input, i)[m] == simple_runs(input, i + 1)[m - 1]);
                }
            }
        }
    }
}

// --- round trip: the values' text reproduces the input ---

/// The literal text of one value: the characters a `Number`, `Symbol`,
/// `Space` or `Punct` consumed, and the resolved text of a `String`.
pub open spec fn value_text(v: ValueModel) -> Seq<char> {
    match v {
        ValueModel::VString(s) => s,
        ValueModel::VSymbol(s) => s,
        ValueModel::VNumber(s) => s,
        ValueModel::VSpace(c) => seq![c],
        ValueModel::VPunct(c) => seq![c],
    }
}

/// The concatenated text of a field's values, in order.
pub open spec fn values_text(vs: Seq<ValueModel>) -> Seq<char>
    decreases vs.len(),
{
    if vs.len() == 0 {
        seq![]
    } else {
        values_text(vs.drop_last()) + value_text(vs.last())
    }
}

/// The concatenated text of a record's fields, in order.
pub open spec fn fields_text(fs: Seq<Seq<ValueModel>>) -> Seq<char>
    decreases fs.len(),
{
    if fs.len() == 0 {
        seq![]
    } else {
        fields_text(fs.drop_last()) + values_text(fs.last())
    }
}

/// The concatenated text of all records, in order.
pub open spec fn records_text(rs: RecordsModel) -> Seq<char>
    decreases rs.len(),
{
    if rs.len() == 0 {
        seq![]
    } else {
        records_text(rs.drop_last()) + fields_text(rs.last())
    }
}

/// The concatenated text of everything a state holds: finished records,
/// pending fields, pending values.
pub open spec fn state_text(st: ScanState) -> Seq<char> {
    records_text(st.records) + fields_text(st.fields) + values_text(st.values)
}

/// A character that a boundary rule consumes without emitting a value.
pub open spec fn divider_char(cfg: OptionsModel, c: char) -> bool {
    c == cfg.endline || cfg.field_div.contains(c)
}

/// `input` from position `i` on, with the divider characters removed.
pub open spec fn kept_text(input: Seq<char>, cfg: OptionsModel, i: int) -> Seq<char>
    decreases input.len() - i,
{
    if !(0 <= i < input.len()) {
        seq![]
    } else if divider_char(cfg, input[i]) {
        kept_text(input, cfg, i + 1)
    } else {
        seq![input[i]] + kept_text(input, cfg, i + 1)
    }
}

/// The inputs and configurations of the round-trip law: spacing is
/// preserved, quoting plays no part, in blank-line mode the line
/// terminator is itself a field divider, and no divider character can
/// be swallowed by a digit or symbol run.
pub open spec fn round_trip_scan(input: Seq<char>, cfg: OptionsModel) -> bool {
    &&& cfg.preserve_spacing
    &&& (cfg.record_div is EndLine || cfg.field_div.contains(cfg.endline))
    &&& forall|k: int| 0 <= k < input.len() ==> !quote_start(cfg, #[trigger] input[k])
    &&& forall|k: int|
        0 <= k < input.len() ==> (divider_char(cfg, #[trigger] input[k]) ==> !numeric_char(
            input[k],
        ) && !symbol_char(input[k]))
}

proof fn lemma_values_text_push(vs: Seq<ValueModel>, v: ValueModel)
    ensures
        values_text(vs.push(v)) == values_text(vs) + value_text(v),
{
    assert(vs.push(v).drop_last() =~= vs);
    assert(vs.push(v).last() == v);
}

proof fn lemma_fields_text_push(fs: Seq<Seq<ValueModel>>, vs: Seq<ValueModel>)
    ensures
        fields_text(fs.push(vs)) == fields_text(fs) + values_text(vs),
{
    assert(fs.push(vs).drop_last() =~= fs);
    assert(fs.push(vs).last() == vs);
}

proof fn lemma_records_text_push(rs: RecordsModel, fs: Seq<Seq<ValueModel>>)
    ensures
        records_text(rs.push(fs)) == records_text(rs) + fields_text(fs),
{
    assert(rs.push(fs).drop_last() =~= rs);
    assert(rs.push(fs).last() == fs);
}

proof fn lemma_state_text_push(st: ScanState, v: ValueModel)
    ensures
        state_text(push_value(st, v)) == state_text(st) + value_text(v),
{
    lemma_values_text_push(st.values, v);
    assert(state_text(push_value(st, v)) =~= state_text(st) + value_text(v));
}

proof fn lemma_state_text_close_field(st: ScanState)
    ensures
        state_text(close_field(st)) == state_text(st),
{
    lemma_fields_text_push(st.fields, st.values);
    assert(values_text(Seq::<ValueModel>::empty()) == Seq::<char>::empty());
    assert(state_text(close_field(st)) =~= state_text(st));
}

proof fn lemma_state_text_close_field_if(st: ScanState)
    ensures
        state_text(close_field_if_nonempty(st)) == state_text(st),
{
    if st.values.len() > 0 {
        lemma_state_text_close_field(st);
    }
}

proof fn lemma_state_text_close_record(st: ScanState)
    ensures
        state_text(close_record(st)) == state_text(st),
{
    lemma_records_text_push(st.records, st.fields);
    assert(fields_text(Seq::<Seq<ValueModel>>::empty()) == Seq::<char>::empty());
    assert(state_text(close_record(st)) =~= state_text(st));
}

/// Closing out a state at end of input turns all its text into record
/// text.
proof fn lemma_state_text_finalize(st: ScanState)
    ensures
        ({
            let st1 = close_field_if_nonempty(st);
            let st2 = if st1.fields.len() > 0 {
                close_record(st1)
            } else {
                st1
            };
            records_text(st2.records) == state_text(st)
        }),
{
    let st1 = close_field_if_nonempty(st);
    lemma_state_text_close_field_if(st);
    assert(values_text(Seq::<ValueModel>::empty()) == Seq::<char>::empty());
    assert(fields_text(Seq::<Seq<ValueModel>>::empty()) == Seq::<char>::empty());
    if st1.fields.len() > 0 {
        let st2 = close_record(st1);
        lemma_state_text_close_record(st1);
        assert(st2.values == st1.values);
        assert(st1.values.len() == 0 || values_text(st1.values) == Seq::<char>::empty());
        assert(records_text(st2.records) =~= state_text(st2));
    } else {
        assert(records_text(st1.records) =~= state_text(st1));
    }
}

/// Skipping a run of non-divider characters keeps exactly those
/// characters.
proof fn lemma_kept_text_run(input: Seq<char>, cfg: OptionsModel, i: int, j: int)
    requires
        0 <= i <= j <= input.len(),
        forall|k: int| i <= k < j ==> !divider_char(cfg, #[trigger] input[k]),
    ensures
        kept_text(input, cfg, i) == input.subrange(i, j) + kept_text(input, cfg, j),
    decreases j - i,
{
    if i == j {
        assert(input.subrange(i, j) =~= Seq::<char>::empty());
        assert(Seq::<char>::empty() + kept_text(input, cfg, i) =~= kept_text(input, cfg, i));
    } else {
        lemma_kept_text_run(input, cfg, i + 1, j);
        let c = seq_char_at(input, i);
        assert(!divider_char(cfg, c));
        assert(kept_text(input, cfg, i) == seq![c] + kept_text(input, cfg, i + 1));
        assert(input.subrange(i, j) =~= seq![c] + input.subrange(i + 1, j));
        assert(seq![c] + (input.subrange(i + 1, j) + kept_text(input, cfg, j)) =~= (seq![c]
            + input.subrange(i + 1, j)) + kept_text(input, cfg, j));
    }
}

/// From any state, a round-trip scan succeeds and its record text
/// extends the state's text by the kept characters of the rest of the
/// input.
proof fn lemma_round_trip_from(input: Seq<char>, cfg: OptionsModel, i: int, st: ScanState)
    requires
        round_trip_scan(input, cfg),
        0 <= i <= input.len(),
    ensures
        scan_from(input, cfg, i, st) matches Some(recs) && records_text(recs) == state_text(st)
            + kept_text(input, cfg, i),
    decreases input.len() - i,
{
    if i >= input.len() {
        lemma_state_text_finalize(st);
        assert(kept_text(input, cfg, i) == Seq::<char>::empty());
        assert(state_text(st) + Seq::<char>::empty() =~= state_text(st));
    } else {
        let c = seq_char_at(input, i);
        if cfg.record_div is BlankLine && st.last_was_endline && c == cfg.endline {
            let stn = close_record(close_field_if_nonempty(st));
            lemma_round_trip_from(input, cfg, i + 1, stn);
            lemma_state_text_close_field_if(st);
            lemma_state_text_close_record(close_field_if_nonempty(st));
            assert(divider_char(cfg, c));
            assert(kept_text(input, cfg, i) == kept_text(input, cfg, i + 1));
        } else {
            let st1 = if cfg.record_div is BlankLine {
                ScanState { last_was_endline: c == cfg.endline, ..st }
            } else {
                st
            };
            assert(state_text(st1) == state_text(st));
            if cfg.record_div is EndLine && c == cfg.endline {
                let stn = close_record(close_field_if_nonempty(st1));
                lemma_round_trip_from(input, cfg, i + 1, stn);
                lemma_state_text_close_field_if(st1);
                lemma_state_text_close_record(close_field_if_nonempty(st1));
                assert(divider_char(cfg, c));
                assert(kept_text(input, cfg, i) == kept_text(input, cfg, i + 1));
            } else if cfg.field_div.contains(c) {
                let stn = close_field(st1);
                lemma_round_trip_from(input, cfg, i + 1, stn);
                lemma_state_text_close_field(st1);
                assert(divider_char(cfg, c));
                assert(kept_text(input, cfg, i) == kept_text(input, cfg, i + 1));
            } else if whitespace_char(c) {
                // spacing is preserved under the round-trip conditions
                assert(cfg.preserve_spacing);
                let v = ValueModel::VSpace(c);
                let stn = push_value(st1, v);
                lemma_round_trip_from(input, cfg, i + 1, stn);
                lemma_state_text_push(st1, v);
                assert(!divider_char(cfg, c));
                assert(kept_text(input, cfg, i) == seq![c] + kept_text(input, cfg, i + 1));
                assert((state_text(st1) + seq![c]) + kept_text(input, cfg, i + 1) =~= state_text(
                    st1,
                ) + (seq![c] + kept_text(input, cfg, i + 1)));
            } else if numeric_char(c) {
                let j = run_end(input, i, numeric_pred());
                lemma_run_end_bounds(input, i, numeric_pred());
                let v = ValueModel::VNumber(input.subrange(i, j));
                let stn = push_value(st1, v);
                lemma_round_trip_from(input, cfg, j, stn);
                lemma_state_text_push(st1, v);
                assert forall|k: int| i <= k < j implies !divider_char(
                    cfg,
                    #[trigger] input[k],
                ) by {
                    assert(numeric_pred()(input[k]));
                }
                lemma_kept_text_run(input, cfg, i, j);
                assert((state_text(st1) + input.subrange(i, j)) + kept_text(input, cfg, j)
                    =~= state_text(st1) + (input.subrange(i, j) + kept_text(input, cfg, j)));
            } else if symbol_start_char(c) {
                let j = run_end(input, i, symbol_pred());
                lemma_run_end_bounds(input, i, symbol_pred());
                let v = ValueModel::VSymbol(input.subrange(i, j));
                let stn = push_value(st1, v);
                lemma_round_trip_from(input, cfg, j, stn);
                lemma_state_text_push(st1, v);
                assert forall|k: int| i <= k < j implies !divider_char(
                    cfg,
                    #[trigger] input[k],
                ) by {
                    assert(symbol_pred()(input[k]));
                }
                lemma_kept_text_run(input, cfg, i, j);
                assert((state_text(st1) + input.subrange(i, j)) + kept_text(input, cfg, j)
                    =~= state_text(st1) + (input.subrange(i, j) + kept_text(input, cfg, j)));
            } else {
                assert(!quote_start(cfg, c));
                let v = ValueModel::VPunct(c);
                let stn = push_value(st1, v);
                lemma_round_trip_from(input, cfg, i + 1, stn);
                lemma_state_text_push(st1, v);
                assert(!divider_char(cfg, c));
                assert(kept_text(input, cfg, i) == seq![c] + kept_text(input, cfg, i + 1));
                assert((state_text(st1) + seq![c]) + kept_text(input, cfg, i + 1) =~= state_text(
                    st1,
                ) + (seq![c] + kept_text(input, cfg, i + 1)));
            }
        }
    }
}

/// Round trip: a scan under the round-trip conditions succeeds, and
/// concatenating the literal text of every value of every field of
/// every record, in order, reproduces the input with its divider
/// characters removed.
pub proof fn lemma_round_trip(input: Seq<char>, cfg: OptionsModel)
    requires
        round_trip_scan(input, cfg),
    ensures
        scan(input, cfg) matches Some(recs) && records_text(recs) == kept_text(input, cfg, 0),
{
    lemma_round_trip_from(input, cfg, 0, initial_state());
    assert(values_text(Seq::<ValueModel>::empty()) == Seq::<char>::empty());
    assert(fields_text(Seq::<Seq<ValueModel>>::empty()) == Seq::<char>::empty());
    assert(records_text(Seq::<Seq<Seq<ValueModel>>>::empty()) == Seq::<char>::empty());
    assert(state_text(initial_state()) + kept_text(input, cfg, 0) =~= kept_text(input, cfg, 0));
}

/// When no character of the input is a divider either, the
/// concatenation reproduces the input exactly.
pub proof fn lemma_round_trip_exact(input: Seq<char>, cfg: OptionsModel)
    requires
        round_trip_scan(input, cfg),
        forall|k: int| 0 <= k < input.len() ==> !divider_char(cfg, #[trigger] input[k]),
    ensures
        scan(input, cfg) matches Some(recs) && records_text(recs) == input,
{
    lemma_round_trip(input, cfg);
    lemma_kept_text_run(input, cfg, 0, input.len() as int);
    assert(kept_text(input, cfg, input.len() as int) == Seq::<char>::empty());
    assert(input.subrange(0, input.len() as int) + Seq::<char>::empty() =~= input);
}

} // verus!
