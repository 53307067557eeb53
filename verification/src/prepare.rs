//! Query preparation: turn free text into a match expression for the index
//! engine, or into the empty string when no usable token remains (the
//! caller then short-circuits to an empty result set).
//!
//! Tokens are maximal runs of non-separator characters; each is wrapped in
//! double quotes so nothing inside reaches the engine's query language, and
//! with autocomplete on, a prefix marker follows the final token only.

use vstd::prelude::*;
use vstd::string::{StrSliceExecFns, StringExecFns};

verus! {

/// Characters that split or never enter a token: whitespace and the
/// punctuation meaningful to the index engine's query language.
pub open spec fn is_sep(c: char) -> bool {
    ||| c == ' '
    ||| c == '\t'
    ||| c == '\n'
    ||| c == '\r'
    ||| c == '"'
    ||| c == '\''
    ||| c == ','
    ||| c == '.'
    ||| c == ';'
    ||| c == ':'
    ||| c == '('
    ||| c == ')'
    ||| c == '['
    ||| c == ']'
    ||| c == '{'
    ||| c == '}'
    ||| c == '*'
    ||| c == '^'
    ||| c == '-'
    ||| c == '+'
    ||| c == '/'
    ||| c == '\\'
    ||| c == '!'
    ||| c == '?'
    ||| c == '&'
    ||| c == '|'
    ||| c == '~'
    ||| c == '@'
    ||| c == '#'
    ||| c == '$'
    ||| c == '%'
    ||| c == '='
    ||| c == '<'
    ||| c == '>'
    ||| c == '`'
}

fn is_sep_char(c: char) -> (r: bool)
    ensures
        r == is_sep(c),
{
    c == ' ' || c == '\t' || c == '\n' || c == '\r' || c == '"' || c == '\'' || c == ','
        || c == '.' || c == ';' || c == ':' || c == '(' || c == ')' || c == '[' || c == ']'
        || c == '{' || c == '}' || c == '*' || c == '^' || c == '-' || c == '+' || c == '/'
        || c == '\\' || c == '!' || c == '?' || c == '&' || c == '|' || c == '~' || c == '@'
        || c == '#' || c == '$' || c == '%' || c == '=' || c == '<' || c == '>' || c == '`'
}

/// The tokens of the remaining text, given a token in progress and the
/// tokens already gathered.
pub open spec fn scan_tokens(rem: Seq<char>, cur: Seq<char>, acc: Seq<Seq<char>>) -> Seq<
    Seq<char>,
>
    decreases rem.len(),
{
    if rem.len() == 0 {
        if cur.len() > 0 {
            acc.push(cur)
        } else {
            acc
        }
    } else if is_sep(rem[0]) {
        if cur.len() > 0 {
            scan_tokens(rem.drop_first(), Seq::empty(), acc.push(cur))
        } else {
            scan_tokens(rem.drop_first(), Seq::empty(), acc)
        }
    } else {
        scan_tokens(rem.drop_first(), cur.push(rem[0]), acc)
    }
}

/// The tokens of a text: maximal non-separator runs, empty runs dropped.
pub open spec fn spec_tokens(s: Seq<char>) -> Seq<Seq<char>> {
    scan_tokens(s, Seq::empty(), Seq::empty())
}

/// A token wrapped in double quotes.
pub open spec fn quoted(t: Seq<char>) -> Seq<char> {
    "\""@ + t + "\""@
}

/// The rest of a rendering: a space and a quoted token, repeatedly.
pub open spec fn render_tail(tokens: Seq<Seq<char>>) -> Seq<char>
    decreases tokens.len(),
{
    if tokens.len() == 0 {
        Seq::empty()
    } else {
        " "@ + quoted(tokens[0]) + render_tail(tokens.drop_first())
    }
}

/// The rendered match expression: quoted tokens joined by single spaces,
/// a trailing prefix marker on the whole when autocomplete is on, and the
/// empty string when there is no token.
pub open spec fn spec_prepare(s: Seq<char>, autocomplete: bool) -> Seq<char> {
    let tokens = spec_tokens(s);
    if tokens.len() == 0 {
        Seq::empty()
    } else {
        quoted(tokens[0]) + render_tail(tokens.drop_first()) + (if autocomplete {
            "*"@
        } else {
            Seq::empty()
        })
    }
}

/// The views of a vector of strings.
pub open spec fn views_of(ss: Seq<String>) -> Seq<Seq<char>> {
    ss.map_values(|s: String| s@)
}

fn tokenize(text: &str) -> (acc: Vec<String>)
    ensures
        views_of(acc@) == spec_tokens(text@),
{
    let n = text.unicode_len();
    let mut acc: Vec<String> = Vec::new();
    let mut tok_start: usize = 0;
    let mut i: usize = 0;
    proof {
        assert(text@.skip(0) =~= text@);
        assert(text@.subrange(0, 0) =~= Seq::<char>::empty());
        assert(views_of(acc@) =~= Seq::<Seq<char>>::empty());
    }
    while i < n
        invariant
            n == text@.len(),
            0 <= tok_start <= i <= n,
            forall|j: int| tok_start <= j < i ==> !is_sep(text@[j]),
            scan_tokens(
                text@.skip(i as int),
                text@.subrange(tok_start as int, i as int),
                views_of(acc@),
            ) == spec_tokens(text@),
        decreases n - i,
    {
        let ghost pre_acc = views_of(acc@);
        let ghost cur = text@.subrange(tok_start as int, i as int);
        proof {
            assert(text@.skip(i as int)[0] == text@[i as int]);
            assert(text@.skip(i as int).drop_first() =~= text@.skip(i as int + 1));
        }
        let c = text.get_char(i);
        if is_sep_char(c) {
            if i > tok_start {
                let t = text.substring_char(tok_start, i).to_owned();
                let ghost pre = acc@;
                acc.push(t);
                proof {
                    assert(views_of(acc@) =~= pre_acc.push(cur));
                }
            }
            i += 1;
            tok_start = i;
            proof {
                assert(text@.subrange(i as int, i as int) =~= Seq::<char>::empty());
            }
        } else {
            i += 1;
            proof {
                assert(text@.subrange(tok_start as int, i as int) =~= cur.push(
                    text@[i as int - 1],
                ));
            }
        }
    }
    let ghost pre_acc = views_of(acc@);
    let ghost cur = text@.subrange(tok_start as int, i as int);
    proof {
        assert(text@.skip(i as int) =~= Seq::<char>::empty());
    }
    if i > tok_start {
        let t = text.substring_char(tok_start, i).to_owned();
        acc.push(t);
        proof {
            assert(views_of(acc@) =~= pre_acc.push(cur));
        }
    }
    acc
}

/// Build the match expression for the index engine. The result is empty
/// exactly when the text has no usable token; with `autocomplete` on, a
/// prefix marker follows the final token only, so "bost" can match
/// "Boston" while earlier tokens stay exact.
pub fn prepare_fts_query(text: &str, autocomplete: bool) -> (q: String)
    ensures
        q@ == spec_prepare(text@, autocomplete),
        q@.len() == 0 <==> spec_tokens(text@).len() == 0,
{
    proof {
        reveal_strlit("\"");
        reveal_strlit(" ");
        reveal_strlit("*");
    }
    let tokens = tokenize(text);
    let ghost tv = spec_tokens(text@);
    if tokens.len() == 0 {
        let q = String::new();
        return q;
    }
    let mut out = String::new();
    out.append("\"");
    out.append(tokens[0].as_str());
    out.append("\"");
    proof {
        assert(tv[0] == views_of(tokens@)[0]);
        assert(out@ =~= quoted(tv[0]));
    }
    let mut k: usize = 1;
    while k < tokens.len()
        invariant
            views_of(tokens@) == tv,
            tokens@.len() == tv.len(),
            1 <= k <= tv.len(),
            out@ == quoted(tv[0]) + render_tail(tv.subrange(1, k as int)),
        decreases tv.len() - k,
    {
        proof {
            reveal_strlit("\"");
            reveal_strlit(" ");
        }
        let ghost pre = out@;
        out.append(" ");
        out.append("\"");
        out.append(tokens[k].as_str());
        out.append("\"");
        proof {
            assert(tv[k as int] == views_of(tokens@)[k as int]);
            lemma_render_tail_snoc(tv, 1, k as int);
            assert(out@ =~= pre + (" "@ + quoted(tv[k as int])));
        }
        k += 1;
    }
    proof {
        assert(tv.subrange(1, tv.len() as int) =~= tv.drop_first());
    }
    if autocomplete {
        out.append("*");
    }
    proof {
        assert(quoted(tv[0]).len() >= 2);
    }
    out
}

/// Appending one more token to a rendered middle section.
proof fn lemma_render_tail_snoc(tv: Seq<Seq<char>>, lo: int, k: int)
    requires
        0 <= lo <= k < tv.len(),
    ensures
        render_tail(tv.subrange(lo, k + 1)) == render_tail(tv.subrange(lo, k)) + (" "@ + quoted(
            tv[k],
        )),
    decreases k - lo,
{
    let a = tv.subrange(lo, k + 1);
    let b = tv.subrange(lo, k);
    if lo == k {
        assert(b =~= Seq::<Seq<char>>::empty());
        assert(a.drop_first() =~= Seq::<Seq<char>>::empty());
        assert(render_tail(a) == " "@ + quoted(a[0]) + render_tail(a.drop_first()));
        assert(a[0] == tv[k]);
        assert(render_tail(a) =~= render_tail(b) + (" "@ + quoted(tv[k])));
    } else {
        lemma_render_tail_snoc(tv, lo + 1, k);
        assert(a.drop_first() =~= tv.subrange(lo + 1, k + 1));
        assert(b.drop_first() =~= tv.subrange(lo + 1, k));
        assert(render_tail(a) == " "@ + quoted(a[0]) + render_tail(tv.subrange(lo + 1, k + 1)));
        assert(render_tail(b) == " "@ + quoted(b[0]) + render_tail(tv.subrange(lo + 1, k)));
        assert(a[0] == tv[lo] && b[0] == tv[lo]);
        assert(render_tail(a) =~= render_tail(b) + (" "@ + quoted(tv[k])));
    }
}

} // verus!
