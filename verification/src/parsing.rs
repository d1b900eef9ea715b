//! The executable scanner.
//!
//! [`parse_records`] drives one scan: it peeks one character at a time,
//! applies the boundary rules of the configuration in priority order, and
//! accumulates classified values into fields, fields into records.  Its
//! contract ties the returned tree to the recursive scan model in
//! [`crate::model`], so every boundary decision is pinned down.

use vstd::prelude::*;
use vstd::string::StringExecFns;
use crate::chars::{
    char_is_alphabetic, char_is_alphanumeric, char_is_numeric, char_is_whitespace, numeric_char,
    symbol_char, symbol_start_char,
};
use crate::data::{Div, Entry, Options, Value};
use crate::model::{
    buffers_state, close_field, close_field_if_nonempty, close_record, escape_of, field_entry_model,
    field_entry_wf, fields_model, fields_wf, initial_state, lemma_fields_push, lemma_models_empty,
    lemma_records_push, lemma_run_end_bounds, lemma_scan_string_advances, lemma_values_push,
    numeric_pred, push_value, quote_start, quotes_of, record_entry_model, record_entry_wf,
    records_model, records_wf, run_end, scan, scan_from, scan_produces, scan_string, symbol_pred,
    value_entry_model, values_model, values_wf, ValueModel,
};

verus! {

/// The error text a scan returns when the input ends inside a quoted run.
pub open spec fn unterminated_message() -> Seq<char> {
    "String encountered end of input"@
}

/// Whether `c` occurs among `cs`.
pub(crate) fn contains_char(cs: &[char], c: char) -> (r: bool)
    ensures
        r == cs@.contains(c),
{
    let mut k: usize = 0;
    while k < cs.len()
        invariant
            0 <= k <= cs@.len(),
            forall|j: int| 0 <= j < k ==> cs@[j] != c,
        decreases cs@.len() - k,
    {
        if cs[k] == c {
            assert(cs@[k as int] == c);
            return true;
        }
        k = k + 1;
    }
    false
}

/// Relies on `String`'s `FromIterator` over characters: collecting
/// characters yields the string of exactly those characters, in order.
#[verifier::external_body]
fn chars_to_string(cs: &Vec<char>) -> (s: String)
    ensures
        s@ == cs@,
{
    cs.iter().collect()
}

/// Consume the maximal run of characters satisfying `p`, starting at
/// `start`: the run's text together with the position just past it.
/// `pred` is the predicate that `p` decides.
pub fn take_while<F: Fn(char) -> bool>(
    input: &[char],
    start: usize,
    p: F,
    Ghost(pred): Ghost<spec_fn(char) -> bool>,
) -> (r: (String, usize))
    requires
        start <= input@.len(),
        forall|c: char| #[trigger] call_requires(p, (c,)),
        forall|c: char, b: bool| #[trigger] call_ensures(p, (c,), b) ==> b == pred(c),
    ensures
        start <= r.1 <= input@.len(),
        r.1 == run_end(input@, start as int, pred),
        r.0@ == input@.subrange(start as int, r.1 as int),
{
    let mut i: usize = start;
    let mut cs: Vec<char> = Vec::new();
    loop
        invariant
            start <= i <= input@.len(),
            cs@ == input@.subrange(start as int, i as int),
            run_end(input@, start as int, pred) == run_end(input@, i as int, pred),
            forall|c: char| #[trigger] call_requires(p, (c,)),
            forall|c: char, b: bool| #[trigger] call_ensures(p, (c,), b) ==> b == pred(c),
        ensures
            start <= i <= input@.len(),
            cs@ == input@.subrange(start as int, i as int),
            run_end(input@, start as int, pred) == i,
        decreases input@.len() - i,
    {
        if i >= input.len() {
            assert(run_end(input@, i as int, pred) == i);
            break;
        }
        let c = input[i];
        let keep = p(c);
        if !keep {
            assert(!pred(input@[i as int]));
            assert(run_end(input@, i as int, pred) == i);
            break;
        }
        assert(pred(input@[i as int]));
        assert(run_end(input@, i as int, pred) == run_end(input@, i as int + 1, pred));
        cs.push(c);
        i = i + 1;
        assert(cs@ =~= input@.subrange(start as int, i as int));
    }
    let s = chars_to_string(&cs);
    (s, i)
}

/// Consume the maximal digit run starting at `i` into a `Number` value.
fn parse_number(input: &[char], i: usize) -> (r: (Entry, usize))
    requires
        i < input@.len(),
        numeric_char(input@[i as int]),
    ensures
        i < r.1 <= input@.len(),
        r.1 == run_end(input@, i as int, numeric_pred()),
        r.0 is Value,
        value_entry_model(r.0) == ValueModel::VNumber(input@.subrange(i as int, r.1 as int)),
{
    let digits = |c: char| -> (b: bool)
        ensures
            b == numeric_char(c),
        { char_is_numeric(c) };
    proof {
        lemma_run_end_bounds(input@, i as int, numeric_pred());
    }
    let (s, j) = take_while(input, i, digits, Ghost(numeric_pred()));
    (Entry::Value(Value::Number(s)), j)
}

/// Consume the maximal run of letters, digits and underscores starting
/// at `i` into a `Symbol` value.
fn parse_symbol(input: &[char], i: usize) -> (r: (Entry, usize))
    requires
        i < input@.len(),
        symbol_start_char(input@[i as int]),
    ensures
        i < r.1 <= input@.len(),
        r.1 == run_end(input@, i as int, symbol_pred()),
        r.0 is Value,
        value_entry_model(r.0) == ValueModel::VSymbol(input@.subrange(i as int, r.1 as int)),
{
    let word = |c: char| -> (b: bool)
        ensures
            b == symbol_char(c),
        { char_is_alphanumeric(c) || c == '_' };
    proof {
        lemma_run_end_bounds(input@, i as int, symbol_pred());
    }
    let (s, j) = take_while(input, i, word, Ghost(symbol_pred()));
    (Entry::Value(Value::Symbol(s)), j)
}

/// Scan one quoted run.  The opening quote stands at `start` and is
/// consumed without being emitted; the scan ends at the first unescaped
/// character of `quote_chars` and resolves escapes under `escape_char`
/// as the model's quoted-text scanner says.  The returned position is
/// just past the closing delimiter.
pub fn parse_string(
    input: &[char],
    start: usize,
    escape_char: Option<char>,
    quote_chars: &[char],
) -> (r: Result<(Entry, usize), String>)
    requires
        start < input@.len(),
    ensures
        match scan_string(
            input@,
            start as int + 1,
            None::<char>,
            Seq::<char>::empty(),
            escape_char,
            quote_chars@,
        ) {
            Some(t) => (r matches Ok(p) && p.0 is Value && value_entry_model(p.0)
                == ValueModel::VString(t.0) && p.1 == t.1),
            None => (r matches Err(m) && m@ == unterminated_message()),
        },
{
    let n = input.len();
    let mut i: usize = start + 1;
    let mut acc: Vec<char> = Vec::new();
    let mut pending: Option<char> = None;
    loop
        invariant
            n == input@.len(),
            start as int + 1 <= i <= input@.len(),
            scan_string(
                input@,
                start as int + 1,
                None::<char>,
                Seq::<char>::empty(),
                escape_char,
                quote_chars@,
            ) == scan_string(input@, i as int, pending, acc@, escape_char, quote_chars@),
        decreases input@.len() - i,
    {
        let ghost i0 = i as int;
        let ghost acc0 = acc@;
        let ghost pend0 = pending;
        if i >= n {
            return Err(String::from_str("String encountered end of input"));
        }
        let c = input[i];
        let at_quote = contains_char(quote_chars, c);
        let at_escape = match escape_char {
            Some(e) => c == e,
            None => false,
        };
        proof {
            assert(at_escape == (escape_char == Some(c)));
        }
        match pending {
            Some(p) => {
                if at_quote || at_escape {
                    acc.push(c);
                } else {
                    acc.push(p);
                    acc.push(c);
                }
                pending = None;
                i = i + 1;
            },
            None => {
                if at_quote {
                    i = i + 1;
                    let s = chars_to_string(&acc);
                    return Ok((Entry::Value(Value::String(s)), i));
                } else if at_escape {
                    pending = Some(c);
                    i = i + 1;
                } else {
                    acc.push(c);
                    i = i + 1;
                }
            },
        }
        proof {
            assert(scan_string(input@, i0, pend0, acc0, escape_char, quote_chars@)
                == scan_string(input@, i as int, pending, acc@, escape_char, quote_chars@));
        }
    }
}

/// Wrap finished values as one field entry.
fn field(values: Vec<Entry>) -> (r: Entry)
    requires
        values_wf(values@),
    ensures
        field_entry_wf(r),
        field_entry_model(r) == values_model(values@),
{
    let ghost vs = values@;
    let mut inner: Vec<Entry> = Vec::new();
    inner.push(Entry::List(values));
    let r = Entry::Field(inner);
    proof {
        assert(inner@[0] == Entry::List(values));
        assert(field_entry_model(r) == values_model(vs));
    }
    r
}

/// Wrap finished fields as one record entry.
fn record(fields: Vec<Entry>) -> (r: Entry)
    requires
        fields_wf(fields@),
    ensures
        record_entry_wf(r),
        record_entry_model(r) == fields_model(fields@),
{
    let ghost fs = fields@;
    let mut inner: Vec<Entry> = Vec::new();
    inner.push(Entry::List(fields));
    let r = Entry::Record(inner);
    proof {
        assert(inner@[0] == Entry::List(fields));
        assert(record_entry_model(r) == fields_model(fs));
    }
    r
}

/// Scan `input` under `options` into a list of records.
///
/// The returned tree is exactly what the scan model says for this input
/// and configuration: a `List` of `Record` entries carrying the model's
/// records on success, and the unterminated-string error if and only if
/// the input ends inside a quoted run.
pub fn parse_records(input: &[char], options: &Options) -> (r: Result<Entry, String>)
    ensures
        scan(input@, options@) is Some <==> r is Ok,
        r matches Ok(e) ==> scan_produces(input@, options@, e),
        r matches Err(m) ==> m@ == unterminated_message(),
{
    let ghost cfg = options@;
    let mut records: Vec<Entry> = Vec::new();
    let mut fields: Vec<Entry> = Vec::new();
    let mut values: Vec<Entry> = Vec::new();
    let mut last_was_endline = false;
    let mut i: usize = 0;

    proof {
        lemma_models_empty();
        assert(buffers_state(records@, fields@, values@, false) == initial_state());
    }

    loop
        invariant
            i <= input@.len(),
            cfg == options@,
            records_wf(records@),
            fields_wf(fields@),
            values_wf(values@),
            scan_from(
                input@,
                cfg,
                i as int,
                buffers_state(records@, fields@, values@, last_was_endline),
            ) == scan(input@, cfg),
        decreases input@.len() - i,
    {
        let ghost st0 = buffers_state(records@, fields@, values@, last_was_endline);
        let ghost i0 = i as int;

        if i >= input.len() {
            // end of input: close the pending values, then the pending
            // fields, without manufacturing empty ones
            let ghost v0 = values@;
            let ghost f0 = fields@;
            if values.len() != 0 {
                let vs = values;
                values = Vec::new();
                let fe = field(vs);
                proof {
                    lemma_fields_push(f0, fe);
                }
                fields.push(fe);
            }
            let ghost r0 = records@;
            if fields.len() != 0 {
                let fs = fields;
                fields = Vec::new();
                let re = record(fs);
                proof {
                    lemma_records_push(r0, re);
                }
                records.push(re);
            }
            proof {
                lemma_models_empty();
                let st1 = close_field_if_nonempty(st0);
                let st2 = if st1.fields.len() > 0 {
                    close_record(st1)
                } else {
                    st1
                };
                assert(records_model(records@) == st2.records);
            }
            return Ok(Entry::List(records));
        }
        let c = input[i];

        if options.record.record_div == Div::BlankLine {
            if last_was_endline && c == options.endline {
                // two consecutive separators: close the current record
                let ghost v0 = values@;
                let ghost f0 = fields@;
                if values.len() != 0 {
                    let vs = values;
                    values = Vec::new();
                    let fe = field(vs);
                    proof {
                        lemma_fields_push(f0, fe);
                    }
                    fields.push(fe);
                }
                let ghost r0 = records@;
                let fs = fields;
                fields = Vec::new();
                let re = record(fs);
                proof {
                    lemma_records_push(r0, re);
                }
                records.push(re);
                i = i + 1;
                proof {
                    lemma_models_empty();
                    assert(buffers_state(records@, fields@, values@, last_was_endline)
                        == close_record(close_field_if_nonempty(st0)));
                }
                continue;
            } else if c == options.endline {
                last_was_endline = true;
            } else {
                last_was_endline = false;
            }
        }
        // the flag update alone does not consume; the rules below see the
        // same character
        let ghost st1 = buffers_state(records@, fields@, values@, last_was_endline);

        if options.record.record_div == Div::EndLine && c == options.endline {
            // one line terminator closes the record
            let ghost v0 = values@;
            let ghost f0 = fields@;
            if values.len() != 0 {
                let vs = values;
                values = Vec::new();
                let fe = field(vs);
                proof {
                    lemma_fields_push(f0, fe);
                }
                fields.push(fe);
            }
            let ghost r0 = records@;
            let fs = fields;
            fields = Vec::new();
            let re = record(fs);
            proof {
                lemma_records_push(r0, re);
            }
            records.push(re);
            i = i + 1;
            proof {
                lemma_models_empty();
                assert(buffers_state(records@, fields@, values@, last_was_endline)
                    == close_record(close_field_if_nonempty(st1)));
            }
        } else if contains_char(options.record.field_div.as_slice(), c) {
            // a field divider closes the field unconditionally
            let ghost f0 = fields@;
            let vs = values;
            values = Vec::new();
            let fe = field(vs);
            proof {
                lemma_fields_push(f0, fe);
            }
            fields.push(fe);
            i = i + 1;
            proof {
                lemma_models_empty();
                assert(buffers_state(records@, fields@, values@, last_was_endline)
                    == close_field(st1));
            }
        } else if options.preserve_spacing && char_is_whitespace(c) {
            let ghost v0 = values@;
            let e = Entry::Value(Value::Space(c));
            proof {
                lemma_values_push(v0, e);
            }
            values.push(e);
            i = i + 1;
            proof {
                assert(buffers_state(records@, fields@, values@, last_was_endline)
                    == push_value(st1, ValueModel::VSpace(c)));
            }
        } else if char_is_whitespace(c) {
            i = i + 1;
        } else if char_is_numeric(c) {
            let ghost v0 = values@;
            let (e, j) = parse_number(input, i);
            proof {
                lemma_values_push(v0, e);
            }
            values.push(e);
            i = j;
            proof {
                assert(buffers_state(records@, fields@, values@, last_was_endline)
                    == push_value(st1, ValueModel::VNumber(input@.subrange(i0, j as int))));
            }
        } else if char_is_alphabetic(c) || c == '_' {
            let ghost v0 = values@;
            let (e, j) = parse_symbol(input, i);
            proof {
                lemma_values_push(v0, e);
            }
            values.push(e);
            i = j;
            proof {
                assert(buffers_state(records@, fields@, values@, last_was_endline)
                    == push_value(st1, ValueModel::VSymbol(input@.subrange(i0, j as int))));
            }
        } else {
            let is_quote = match &options.strings {
                Some(q) => contains_char(q.quote_chars.as_slice(), c),
                None => false,
            };
            proof {
                assert(is_quote == quote_start(cfg, c));
            }
            if is_quote {
                let q = options.strings.as_ref().unwrap();
                match parse_string(input, i, q.escape_char, q.quote_chars.as_slice()) {
                    Ok(pair) => {
                        let (e, j) = pair;
                        let ghost v0 = values@;
                        proof {
                            lemma_scan_string_advances(
                                input@,
                                i0 + 1,
                                None,
                                Seq::<char>::empty(),
                                escape_of(cfg),
                                quotes_of(cfg),
                            );
                            lemma_values_push(v0, e);
                        }
                        values.push(e);
                        i = j;
                        proof {
                            let t = scan_string(
                                input@,
                                i0 + 1,
                                None::<char>,
                                Seq::<char>::empty(),
                                escape_of(cfg),
                                quotes_of(cfg),
                            ).unwrap();
                            assert(buffers_state(records@, fields@, values@, last_was_endline)
                                == push_value(st1, ValueModel::VString(t.0)));
                        }
                    },
                    Err(m) => {
                        proof {
                            assert(scan_from(input@, cfg, i0, st0) is None);
                        }
                        return Err(m);
                    },
                }
            } else {
                let ghost v0 = values@;
                let e = Entry::Value(Value::Punct(c));
                proof {
                    lemma_values_push(v0, e);
                }
                values.push(e);
                i = i + 1;
                proof {
                    assert(buffers_state(records@, fields@, values@, last_was_endline)
                        == push_value(st1, ValueModel::VPunct(c)));
                }
            }
        }
    }
}

} // verus!
