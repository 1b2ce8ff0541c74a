//! The directives of the log module.

use vstd::prelude::*;
use vstd::string::StringExecFns;
use crate::ast::{
    AccessLog, AccessLogOptions, AccessLogOptionsView, AccessLogView, Item, ItemView,
};
use crate::error::{ErrorItem, ParseError};
use crate::helpers::{
    complaint, error_at, family_agrees, item_of_number_error, item_of_value_error, no_names,
    number_error, one_name, semi_at, semi_spec, two_names, value_at, value_error, value_spec,
    Parsed,
};
use crate::text::{
    chars_of, debug_of, debug_text, is_prefix, number_spec, parse_number, same_text,
    starts_with, str_eq, tail_of, tail_string,
};
use crate::tokenizer::{Lexed, TokenList};
use crate::value::{parse_spec, Value, ValueView};

verus! {

/// The options of `access_log` with what the parameter at `i` sets.
pub open spec fn param_spec(t: Lexed, i: int, o: AccessLogOptionsView) -> Result<
    AccessLogOptionsView,
    crate::error::ErrorView,
> {
    let s = t.text(i);
    let at = t.position(i);
    if is_prefix("if="@, s) {
        match parse_spec(s.skip(3)) {
            Ok(data) => Ok(
                AccessLogOptionsView { condition: Some(ValueView { position: at, data }), ..o },
            ),
            Err(e) => Err(error_at(at, value_error(e))),
        }
    } else if s == "gzip"@ {
        Ok(AccessLogOptionsView { gzip: Some(None), ..o })
    } else if is_prefix("gzip="@, s) {
        match number_spec(s.skip(5), 0, 255) {
            Ok(n) => Ok(AccessLogOptionsView { gzip: Some(Some(n as u8)), ..o }),
            Err(e) => Err(error_at(at, number_error(e))),
        }
    } else if is_prefix("buffer="@, s) {
        Ok(AccessLogOptionsView { buffer: Some(s.skip(7)), ..o })
    } else if is_prefix("flush="@, s) {
        Ok(AccessLogOptionsView { flush: Some(s.skip(6)), ..o })
    } else {
        Err(complaint(at, "bad access_log param "@ + debug_text(s)))
    }
}

/// The options `o` with what the parameters from `i` on set, and the index
/// of the first token that is no string.
pub open spec fn params_spec(t: Lexed, i: int, o: AccessLogOptionsView) -> Parsed<
    AccessLogOptionsView,
>
    decreases t.tokens.len() - i,
{
    if t.is_string(i) {
        match param_spec(t, i, o) {
            Err(e) => Err(e),
            Ok(next) => params_spec(t, i + 1, next),
        }
    } else {
        Ok((o, i))
    }
}

/// The directive for the options that were read, once the semicolon
/// behind them is found.
pub open spec fn finish_spec(t: Lexed, read: Parsed<AccessLogOptionsView>) -> Parsed<ItemView> {
    match read {
        Err(e) => Err(e),
        Ok((o, i)) => match semi_spec(t, i, seq!["String"@]) {
            Ok(j) => Ok((ItemView::AccessLog(AccessLogView::On(o)), j)),
            Err(e) => Err(e),
        },
    }
}

/// `access_log off;` or `access_log path [format [parameter ...]];`
pub open spec fn access_log_spec(t: Lexed, kw: int) -> Parsed<ItemView> {
    if t.is_word(kw + 1, "off"@) {
        match semi_spec(t, kw + 2, Seq::empty()) {
            Ok(j) => Ok((ItemView::AccessLog(AccessLogView::Off), j)),
            Err(e) => Err(e),
        }
    } else {
        match value_spec(t, kw + 1, seq!["off"@, "String"@]) {
            Err(e) => Err(e),
            Ok((path, _)) => {
                let plain = AccessLogOptionsView {
                    path,
                    format: None,
                    buffer: None,
                    gzip: None,
                    flush: None,
                    condition: None,
                };
                let read = if t.is_string(kw + 2) {
                    params_spec(
                        t,
                        kw + 3,
                        AccessLogOptionsView { format: Some(t.text(kw + 2)), ..plain },
                    )
                } else {
                    Ok((plain, kw + 2))
                };
                finish_spec(t, read)
            },
        }
    }
}

/// What the log module makes of the directive that starts at `kw`.
pub open spec fn directives_spec(t: Lexed, kw: int) -> Option<Parsed<ItemView>> {
    if t.text(kw) == "access_log"@ {
        Some(access_log_spec(t, kw))
    } else {
        None
    }
}

/// Sets in `o` what the parameter at `i` says.
fn param(t: &TokenList, i: usize, o: AccessLogOptions) -> (r: Result<AccessLogOptions, ParseError>)
    requires
        i < t.tokens.len(),
    ensures
        match param_spec(t@, i as int, o@) {
            Ok(v) => r matches Ok(x) && x@ == v,
            Err(e) => r matches Err(x) && x@ == e,
        },
{
    let mut o = o;
    let s = chars_of(t.text(i));
    let at = t.position(i);
    if starts_with(&s, "if=") {
        proof {
            reveal_strlit("if=");
        }
        match Value::parse_chars(at, &tail_of(&s, 3)) {
            Ok(v) => {
                o.condition = Some(v);
                Ok(o)
            },
            Err(e) => Err(ParseError::single(at, item_of_value_error(e))),
        }
    } else if same_text(&s, "gzip") {
        o.gzip = Some(None);
        Ok(o)
    } else if starts_with(&s, "gzip=") {
        proof {
            reveal_strlit("gzip=");
        }
        match parse_number(&tail_of(&s, 5), 0, 255) {
            Ok(n) => {
                o.gzip = Some(Some(n as u8));
                Ok(o)
            },
            Err(e) => Err(ParseError::single(at, item_of_number_error(e))),
        }
    } else if starts_with(&s, "buffer=") {
        proof {
            reveal_strlit("buffer=");
        }
        o.buffer = Some(tail_string(&s, 7));
        Ok(o)
    } else if starts_with(&s, "flush=") {
        proof {
            reveal_strlit("flush=");
        }
        o.flush = Some(tail_string(&s, 6));
        Ok(o)
    } else {
        let mut text = String::from_str("bad access_log param ");
        let quoted = debug_of(t.text(i));
        text.append(quoted.as_str());
        Err(ParseError::single(at, ErrorItem::Unexpected(text)))
    }
}

/// Reads `access_log` with its arguments.
fn access_log(t: &TokenList, kw: usize) -> (r: Result<(Item, usize), ParseError>)
    requires
        kw < t.tokens.len(),
    ensures
        family_agrees(t, kw, Some(r), Some(access_log_spec(t@, kw as int))),
{
    if t.is_word(kw + 1, "off") {
        return match semi_at(t, kw + 2, no_names()) {
            Ok(j) => Ok((Item::AccessLog(AccessLog::Off), j)),
            Err(e) => Err(e),
        };
    }
    let (path, _) = match value_at(t, kw + 1, &two_names("off", "String")) {
        Ok(p) => p,
        Err(e) => {
            return Err(e);
        },
    };
    let mut o = AccessLogOptions {
        path,
        format: None,
        buffer: None,
        gzip: None,
        flush: None,
        condition: None,
    };
    let mut i: usize = kw + 2;
    if t.is_string(kw + 2) {
        o.format = Some(String::from_str(t.text(kw + 2)));
        i = kw + 3;
        let ghost start = o@;
        while t.is_string(i)
            invariant
                kw + 3 <= i <= t.tokens.len(),
                params_spec(t@, kw + 3, start) == params_spec(t@, i as int, o@),
                access_log_spec(t@, kw as int) == finish_spec(
                    t@,
                    params_spec(t@, kw + 3, start),
                ),
            decreases t.tokens.len() - i,
        {
            o = match param(t, i, o) {
                Ok(next) => next,
                Err(e) => {
                    return Err(e);
                },
            };
            i += 1;
        }
    }
    match semi_at(t, i, one_name("String")) {
        Ok(j) => Ok((Item::AccessLog(AccessLog::On(o)), j)),
        Err(e) => Err(e),
    }
}

/// Reads a directive of the log module whose name stands at `kw`.
pub fn directives(t: &TokenList, kw: usize) -> (r: Option<Result<(Item, usize), ParseError>>)
    requires
        kw < t.tokens.len(),
    ensures
        family_agrees(t, kw, r, directives_spec(t@, kw as int)),
{
    if str_eq(t.text(kw), "access_log") {
        Some(access_log(t, kw))
    } else {
        None
    }
}

} // verus!
