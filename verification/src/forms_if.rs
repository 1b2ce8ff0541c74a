//! `if`: how it is written, and that it is read back.

use vstd::prelude::*;
use crate::ast::{IfConditionView, IfView, ItemView};
use crate::display::{render_condition, render_value};
use crate::error::{ErrorItemView, ErrorView};
use crate::format::Page;
use crate::forms::{alike_here, has_tokens, line_words, words_ok};
use crate::forms_kinds::lemma_run_read;
use crate::grammar::{block_spec, directive_names, item_spec, stuck};
use crate::helpers::{texts_spec, Parsed};
use crate::layout_laws::{
    lemma_spaced_two, punct_token, spaced, string_token, string_tokens, with_head,
};
use crate::lex_laws::is_word;
use crate::names::{lemma_names_distinct, lemma_names_listed};
use crate::position::Pos;
use crate::rewrite::{
    binary_spec, closed, condition_spec, if_condition_spec, opened, unary_spec,
};
use crate::tokenizer::Lexed;
use crate::value::{parse_spec, value_text, ValueView};
use crate::value_laws::{lemma_value_round_trip, readable};

verus! {

/// The forms of the condition of an `if`.
pub enum Test {
    /// A value alone.
    Alone(ValueView),
    /// A value, an operator and a text.
    Compare(ValueView, Seq<char>, Seq<char>),
    /// An operator and a value.
    File(Seq<char>, ValueView),
}

/// The form of a condition, with the operator as it is written.
pub open spec fn test_of(c: IfConditionView) -> Test {
    match c {
        IfConditionView::NonEmpty(v) => Test::Alone(v),
        IfConditionView::Eq(v, s) => Test::Compare(v, "="@, s),
        IfConditionView::Neq(v, s) => Test::Compare(v, "!="@, s),
        IfConditionView::RegEq(v, s, case) => Test::Compare(
            v,
            if case {
                "~"@
            } else {
                "~*"@
            },
            s,
        ),
        IfConditionView::RegNeq(v, s, case) => Test::Compare(
            v,
            if case {
                "!~"@
            } else {
                "!~*"@
            },
            s,
        ),
        IfConditionView::Exists(v) => Test::File("-e"@, v),
        IfConditionView::NotExists(v) => Test::File("!-e"@, v),
        IfConditionView::FileExists(v) => Test::File("-f"@, v),
        IfConditionView::FileNotExists(v) => Test::File("!-f"@, v),
        IfConditionView::DirExists(v) => Test::File("-d"@, v),
        IfConditionView::DirNotExists(v) => Test::File("!-d"@, v),
        IfConditionView::Executable(v) => Test::File("-x"@, v),
        IfConditionView::NotExecutable(v) => Test::File("!-x"@, v),
    }
}

/// The words of a condition with its parentheses.
pub open spec fn test_words(c: IfConditionView) -> Seq<Seq<char>> {
    match test_of(c) {
        Test::Alone(v) => seq![seq!['('] + value_text(v.data) + seq![')']],
        Test::Compare(v, op, s) => seq![seq!['('] + value_text(v.data), op, s + seq![')']],
        Test::File(op, v) => seq![seq!['('] + op, value_text(v.data) + seq![')']],
    }
}

/// Whether a condition is read back as it is written: its value is read
/// back as it is written, each of its words is one token, a value that
/// is compared starts with `$`, and the text it is compared with is not
/// empty.
pub open spec fn test_ok(c: IfConditionView) -> bool {
    &&& readable(c.value().data)
    &&& forall|k: int| 0 <= k < test_words(c).len() ==> is_word(#[trigger] test_words(c)[k])
    &&& match test_of(c) {
        Test::Alone(v) => value_text(v.data).len() > 0 && value_text(v.data)[0] == '$',
        Test::Compare(v, op, s) => value_text(v.data).len() > 0 && value_text(v.data)[0] == '$'
            && s.len() > 0,
        Test::File(op, v) => value_text(v.data).len() > 0,
    }
}

/// The operators that compare a value, as they are written.
pub proof fn lemma_compare_operators()
    ensures
        "="@ == seq!['='],
        "!="@ == seq!['!', '='],
        "~"@ == seq!['~'],
        "!~"@ == seq!['!', '~'],
        "~*"@ == seq!['~', '*'],
        "!~*"@ == seq!['!', '~', '*'],
{
    reveal_strlit("=");
    reveal_strlit("!=");
    reveal_strlit("~");
    reveal_strlit("!~");
    reveal_strlit("~*");
    reveal_strlit("!~*");
    assert("="@ =~= seq!['=']);
    assert("!="@ =~= seq!['!', '=']);
    assert("~"@ =~= seq!['~']);
    assert("!~"@ =~= seq!['!', '~']);
    assert("~*"@ =~= seq!['~', '*']);
    assert("!~*"@ =~= seq!['!', '~', '*']);
}

/// The operators that test a file, as they are written.
pub proof fn lemma_file_operators()
    ensures
        "-e"@ == seq!['-', 'e'],
        "!-e"@ == seq!['!', '-', 'e'],
        "-f"@ == seq!['-', 'f'],
        "!-f"@ == seq!['!', '-', 'f'],
        "-d"@ == seq!['-', 'd'],
        "!-d"@ == seq!['!', '-', 'd'],
        "-x"@ == seq!['-', 'x'],
        "!-x"@ == seq!['!', '-', 'x'],
{
    reveal_strlit("-e");
    reveal_strlit("!-e");
    reveal_strlit("-f");
    reveal_strlit("!-f");
    reveal_strlit("-d");
    reveal_strlit("!-d");
    reveal_strlit("-x");
    reveal_strlit("!-x");
    assert("-e"@ =~= seq!['-', 'e']);
    assert("!-e"@ =~= seq!['!', '-', 'e']);
    assert("-f"@ =~= seq!['-', 'f']);
    assert("!-f"@ =~= seq!['!', '-', 'f']);
    assert("-d"@ =~= seq!['-', 'd']);
    assert("!-d"@ =~= seq!['!', '-', 'd']);
    assert("-x"@ =~= seq!['-', 'x']);
    assert("!-x"@ =~= seq!['!', '-', 'x']);
}

/// The operators are written with a space on each side where they
/// compare, and with a space behind them where they test a file.
pub proof fn lemma_spaced_operators()
    ensures
        " = "@ == seq![' '] + "="@ + seq![' '],
        " != "@ == seq![' '] + "!="@ + seq![' '],
        " ~ "@ == seq![' '] + "~"@ + seq![' '],
        " !~ "@ == seq![' '] + "!~"@ + seq![' '],
        " ~* "@ == seq![' '] + "~*"@ + seq![' '],
        " !~* "@ == seq![' '] + "!~*"@ + seq![' '],
        "-e "@ == "-e"@ + seq![' '],
        "!-e "@ == "!-e"@ + seq![' '],
        "-f "@ == "-f"@ + seq![' '],
        "!-f "@ == "!-f"@ + seq![' '],
        "-d "@ == "-d"@ + seq![' '],
        "!-d "@ == "!-d"@ + seq![' '],
        "-x "@ == "-x"@ + seq![' '],
        "!-x "@ == "!-x"@ + seq![' '],
{
    reveal_strlit("=");
    reveal_strlit(" = ");
    reveal_strlit("!=");
    reveal_strlit(" != ");
    reveal_strlit("~");
    reveal_strlit(" ~ ");
    reveal_strlit("!~");
    reveal_strlit(" !~ ");
    reveal_strlit("~*");
    reveal_strlit(" ~* ");
    reveal_strlit("!~*");
    reveal_strlit(" !~* ");
    reveal_strlit("-e");
    reveal_strlit("-e ");
    reveal_strlit("!-e");
    reveal_strlit("!-e ");
    reveal_strlit("-f");
    reveal_strlit("-f ");
    reveal_strlit("!-f");
    reveal_strlit("!-f ");
    reveal_strlit("-d");
    reveal_strlit("-d ");
    reveal_strlit("!-d");
    reveal_strlit("!-d ");
    reveal_strlit("-x");
    reveal_strlit("-x ");
    reveal_strlit("!-x");
    reveal_strlit("!-x ");
    assert(" = "@ =~= seq![' '] + "="@ + seq![' ']);
    assert(" != "@ =~= seq![' '] + "!="@ + seq![' ']);
    assert(" ~ "@ =~= seq![' '] + "~"@ + seq![' ']);
    assert(" !~ "@ =~= seq![' '] + "!~"@ + seq![' ']);
    assert(" ~* "@ =~= seq![' '] + "~*"@ + seq![' ']);
    assert(" !~* "@ =~= seq![' '] + "!~*"@ + seq![' ']);
    assert("-e "@ =~= "-e"@ + seq![' ']);
    assert("!-e "@ =~= "!-e"@ + seq![' ']);
    assert("-f "@ =~= "-f"@ + seq![' ']);
    assert("!-f "@ =~= "!-f"@ + seq![' ']);
    assert("-d "@ =~= "-d"@ + seq![' ']);
    assert("!-d "@ =~= "!-d"@ + seq![' ']);
    assert("-x "@ =~= "-x"@ + seq![' ']);
    assert("!-x "@ =~= "!-x"@ + seq![' ']);
}

/// The words around the condition of an `if`, as they are written.
pub proof fn lemma_if_words()
    ensures
        "if ("@ == "if"@ + seq![' ', '('],
        ") "@ == seq![')', ' '],
{
    reveal_strlit("if (");
    reveal_strlit("if");
    reveal_strlit(") ");
    assert("if ("@ =~= "if"@ + seq![' ', '(']);
    assert(") "@ =~= seq![')', ' ']);
}

/// An operator is not empty, and starts with `=`, `!` or `~` where it
/// compares a value, with `-` or `!` where it tests a file.
pub proof fn lemma_operator_start(c: IfConditionView)
    ensures
        match test_of(c) {
            Test::Alone(_) => true,
            Test::Compare(_, op, _) => op.len() > 0 && (op[0] == '=' || op[0] == '!' || op[0]
                == '~'),
            Test::File(op, _) => op.len() > 0 && (op[0] == '-' || op[0] == '!'),
        },
{
    lemma_compare_operators();
    lemma_file_operators();
}

/// What is written between the parentheses of a condition.
pub open spec fn test_text(c: IfConditionView) -> Seq<char> {
    match test_of(c) {
        Test::Alone(v) => value_text(v.data),
        Test::Compare(v, op, s) => value_text(v.data) + seq![' '] + op + seq![' '] + s,
        Test::File(op, v) => op + seq![' '] + value_text(v.data),
    }
}

/// A condition is written as the text between its parentheses.
pub proof fn lemma_condition_text(c: IfConditionView, p: Page)
    ensures
        render_condition(c, p).text == p.text + test_text(c),
        render_condition(c, p).indent == p.indent,
        render_condition(c, p).step == p.step,
{
    lemma_spaced_operators();
    let d = c.value().data;
    match test_of(c) {
        Test::Alone(v) => {
            assert(render_condition(c, p).text =~= p.text + value_text(d));
        },
        Test::Compare(v, op, s) => {
            let mid = seq![' '] + op + seq![' '];
            assert(render_condition(c, p) == render_value(v, p).write(mid).write(s));
            assert(render_condition(c, p).text =~= p.text + (value_text(d) + seq![' '] + op + seq![
                ' ',
            ] + s));
        },
        Test::File(op, v) => {
            let head = op + seq![' '];
            assert(render_condition(c, p) == render_value(v, p.write(head)));
            assert(render_condition(c, p).text =~= p.text + (op + seq![' '] + value_text(d)));
        },
    }
}

/// The line that opens an `if` is written as its words and an opening
/// brace.
pub proof fn lemma_if_head(item: ItemView, p: Page)
    requires
        item is If,
    ensures
        render_condition(item->If_0.condition, p.indent().write("if ("@)).write(
            ") "@,
        ).start_block() == with_head(p, line_words(item)),
{
    let c = item->If_0.condition;
    let ws = line_words(item);
    lemma_if_words();
    lemma_condition_text(c, p.indent().write("if ("@));
    let written = render_condition(c, p.indent().write("if ("@)).write(") "@).start_block();
    assert(ws =~= seq!["if"@] + test_words(c));
    match test_of(c) {
        Test::Alone(v) => {
            let a = seq!['('] + value_text(v.data) + seq![')'];
            assert(ws =~= seq!["if"@, a]);
            lemma_spaced_two("if"@, a);
        },
        Test::Compare(v, op, s) => {
            let a = seq!['('] + value_text(v.data);
            let b = s + seq![')'];
            assert(ws =~= seq!["if"@, a, op, b]);
            assert(ws.drop_last() =~= seq!["if"@, a, op]);
            assert(seq!["if"@, a, op].drop_last() =~= seq!["if"@, a]);
            lemma_spaced_two("if"@, a);
            assert(spaced(seq!["if"@, a, op]) =~= spaced(seq!["if"@, a]) + op + seq![' ']);
            assert(spaced(ws) =~= spaced(seq!["if"@, a, op]) + b + seq![' ']);
        },
        Test::File(op, v) => {
            let a = seq!['('] + op;
            let b = value_text(v.data) + seq![')'];
            assert(ws =~= seq!["if"@, a, b]);
            assert(ws.drop_last() =~= seq!["if"@, a]);
            lemma_spaced_two("if"@, a);
            assert(spaced(ws) =~= spaced(seq!["if"@, a]) + b + seq![' ']);
        },
    }
    assert(written.text =~= with_head(p, ws).text);
}

/// The condition with its value at the position `at`.
pub open spec fn test_at(c: IfConditionView, at: Pos) -> IfConditionView {
    c.with_value(ValueView { position: at, data: c.value().data })
}

/// The grammar reads a comparison from a value, an operator and a text.
pub proof fn lemma_binary_read(c: IfConditionView, at: Pos)
    requires
        test_of(c) is Compare,
        parse_spec(value_text(c.value().data)) == Ok::<_, crate::value::ValueError>(
            c.value().data,
        ),
    ensures
        binary_spec(
            seq![value_text(c.value().data), test_of(c)->Compare_1, test_of(c)->Compare_2],
            at,
        ) == Ok::<_, ErrorItemView>(test_at(c, at)),
{
    lemma_compare_operators();
    let w = seq![value_text(c.value().data), test_of(c)->Compare_1, test_of(c)->Compare_2];
    assert(w.len() == 3);
    assert(w[1] == test_of(c)->Compare_1);
    match c {
        IfConditionView::Eq(v, s) => {},
        IfConditionView::Neq(v, s) => {
            assert("!="@[0] != "="@[0]);
        },
        IfConditionView::RegEq(v, s, case) => {
            if case {
                assert("~"@[0] != "="@[0] && "~"@[0] != "!="@[0]);
            } else {
                assert("~*"@[0] != "="@[0] && "~*"@[0] != "!="@[0]);
                assert("~*"@.len() != "~"@.len() && "~*"@[0] != "!~"@[0]);
            }
        },
        IfConditionView::RegNeq(v, s, case) => {
            if case {
                assert("!~"@[0] != "="@[0] && "!~"@[1] != "!="@[1] && "!~"@[0] != "~"@[0]);
            } else {
                assert("!~*"@[0] != "="@[0] && "!~*"@[1] != "!="@[1] && "!~*"@[0] != "~"@[0]);
                assert("!~*"@.len() != "!~"@.len() && "!~*"@[0] != "~*"@[0]);
            }
        },
        _ => {},
    }
}

/// The grammar reads a test of a file from an operator and a value.
pub proof fn lemma_unary_read(c: IfConditionView, at: Pos)
    requires
        test_of(c) is File,
        parse_spec(value_text(c.value().data)) == Ok::<_, crate::value::ValueError>(
            c.value().data,
        ),
    ensures
        unary_spec(seq![test_of(c)->File_0, value_text(c.value().data)], at) == Ok::<
            _,
            ErrorItemView,
        >(test_at(c, at)),
{
    lemma_file_operators();
    let op = test_of(c)->File_0;
    let w = seq![op, value_text(c.value().data)];
    assert(w.len() == 2);
    assert(w[0] == op);
    let bare = op.len() == 2;
    let mark = if bare {
        op[1]
    } else {
        op[2]
    };
    assert(op == "-d"@ <==> bare && mark == 'd') by {
        if op == "-d"@ {
        }
    }
    assert(op == "!-d"@ <==> !bare && mark == 'd');
    assert(op == "-f"@ <==> bare && mark == 'f');
    assert(op == "!-f"@ <==> !bare && mark == 'f');
    assert(op == "-x"@ <==> bare && mark == 'x');
    assert(op == "!-x"@ <==> !bare && mark == 'x');
    assert(op == "-e"@ <==> bare && mark == 'e');
    assert(op == "!-e"@ <==> !bare && mark == 'e');
    match c {
        IfConditionView::Exists(v) => {},
        IfConditionView::NotExists(v) => {},
        IfConditionView::FileExists(v) => {},
        IfConditionView::FileNotExists(v) => {},
        IfConditionView::DirExists(v) => {},
        IfConditionView::DirNotExists(v) => {},
        IfConditionView::Executable(v) => {},
        IfConditionView::NotExecutable(v) => {},
        _ => {},
    }
}

/// The grammar reads a condition from its words.
pub proof fn lemma_condition_read(c: IfConditionView, at: Pos)
    requires
        test_ok(c),
    ensures
        condition_spec(test_words(c), at) == Ok::<_, ErrorItemView>(test_at(c, at)),
{
    let words = test_words(c);
    lemma_operator_start(c);
    lemma_value_round_trip(c.value().data);
    let vt = value_text(c.value().data);
    match test_of(c) {
        Test::Alone(v) => {
            let first = seq!['('] + vt + seq![')'];
            assert(first[0] == '(');
            let v1 = words.update(0, first.skip(1));
            assert(first.skip(1) =~= vt + seq![')']);
            assert(opened(words) == Some(v1));
            assert(v1.last() == vt + seq![')']);
            assert((vt + seq![')']).last() == ')');
            assert((vt + seq![')']).drop_last() =~= vt);
            let w = v1.update(v1.len() - 1, vt);
            assert(closed(v1) == Some(w));
            assert(w =~= seq![vt]);
            assert(w[0][0] == '$');
            assert(c == IfConditionView::NonEmpty(v));
            assert(binary_spec(w, at) == Ok::<_, ErrorItemView>(test_at(c, at)));
        },
        Test::Compare(v, op, s) => {
            let first = seq!['('] + vt;
            let last = s + seq![')'];
            assert(first[0] == '(');
            assert(first.skip(1) =~= vt);
            let v1 = words.update(0, vt);
            assert(opened(words) == Some(v1));
            assert(v1.last() == last);
            assert(last.last() == ')');
            assert(last.drop_last() =~= s);
            let w = v1.update(v1.len() - 1, s);
            assert(closed(v1) == Some(w));
            assert(w =~= seq![vt, op, s]);
            assert(w[0][0] == '$');
            lemma_binary_read(c, at);
        },
        Test::File(op, v) => {
            let first = seq!['('] + op;
            let last = vt + seq![')'];
            assert(first[0] == '(');
            assert(first.skip(1) =~= op);
            let v1 = words.update(0, op);
            assert(opened(words) == Some(v1));
            assert(v1.last() == last);
            assert(last.last() == ')');
            assert(last.drop_last() =~= vt);
            let w = v1.update(v1.len() - 1, vt);
            assert(closed(v1) == Some(w));
            assert(w =~= seq![op, vt]);
            assert(w[0][0] == '-' || w[0][0] == '!');
            lemma_unary_read(c, at);
        },
    }
}

/// What the grammar makes of an `if` that starts at `kw`.
pub open spec fn if_result(t: Lexed, kw: int) -> Parsed<ItemView> {
    match if_condition_spec(t, kw) {
        Err(e) => Err(e),
        Ok((condition, i)) => if kw < i <= t.tokens.len() {
            match block_spec(t, i, seq!["String"@]) {
                Ok((b, j)) => Ok(
                    (
                        ItemView::If(
                            IfView { position: b.position, condition, directives: b.directives },
                        ),
                        j,
                    ),
                ),
                Err(e) => Err(e),
            }
        } else {
            Err(stuck(t, kw))
        },
    }
}

/// The grammar reads `if` by its name.
pub proof fn lemma_if_read(t: Lexed, kw: int)
    requires
        t.is_string(kw),
        t.text(kw) == "if"@,
    ensures
        item_spec(t, kw) == Some(if_result(t, kw)),
{
    lemma_names_listed();
    lemma_names_distinct();
    let names = directive_names();
    assert(names[3] != names[8] && names[4] != names[8] && names[13] != names[8] && names[43]
        != names[8]);
}

/// The grammar reads the condition of an `if` from its tokens.
pub proof fn lemma_if_parsed(t: Lexed, i: int, item: ItemView)
    requires
        item is If,
        test_ok(item->If_0.condition),
        has_tokens(t, i, string_tokens(line_words(item)).push(punct_token('{'))),
    ensures
        t.is_string(i),
        t.text(i) == "if"@,
        if_condition_spec(t, i) == Ok::<_, ErrorView>(
            (test_at(item->If_0.condition, t.position(i + 1)), i + line_words(item).len()),
        ),
        i + line_words(item).len() < t.tokens.len(),
{
    let c = item->If_0.condition;
    let words = test_words(c);
    let n = words.len() as int;
    let ws = line_words(item);
    let w = string_tokens(ws).push(punct_token('{'));
    assert(ws =~= seq!["if"@] + words);
    assert forall|k: int| 0 <= k < ws.len() implies t.is_string(i + k) && #[trigger] t.text(i + k)
        == ws[k] by {
        assert(t.tokens[i + k].token == w[k]);
        assert(w[k] == string_token(ws[k]));
    }
    assert(t.text(i + 0) == ws[0]);
    assert(t.tokens[i + ws.len()].token == w[ws.len() as int]);
    assert forall|m: int| 0 <= m < n implies #[trigger] t.is_string(i + 1 + m) by {
        assert(t.text(i + (1 + m)) == ws[1 + m]);
    }
    lemma_run_read(t, i + 1, n, 0);
    assert(t.is_string(i + 1 + 0));
    assert(texts_spec(t, i + 1, i + 1 + n) =~= words) by {
        assert forall|m: int| 0 <= m < n implies texts_spec(t, i + 1, i + 1 + n)[m]
            == words[m] by {
            assert(t.text(i + (1 + m)) == ws[1 + m]);
        }
    }
    lemma_condition_read(c, t.position(i + 1));
}

/// A directive that is like an `if` has the same words.
pub proof fn lemma_if_alike(a: ItemView, b: ItemView)
    requires
        a is If,
        words_ok(a),
        alike_here(a, b),
    ensures
        b is If,
        words_ok(b),
        line_words(b) == line_words(a),
{
    let va = a.values();
    let vb = b.values();
    let ca = a->If_0.condition;
    let cb = b->If_0.condition;
    assert(va =~= seq![ca.value()]);
    assert(vb[0].data == va[0].data);
    assert(test_words(cb) == test_words(ca));
}

} // verus!
