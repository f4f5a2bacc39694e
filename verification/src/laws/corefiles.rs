//! Laws on how a Corefile is read.

use crate::config;
use crate::config::{Directive, Lexeme, Setup, ZoneConfig, ZoneText};
use crate::plugin;
use crate::plugin::Setting;
use crate::text;
use vstd::prelude::*;

verus! {

/// White space, character by character.
pub open spec fn blank(c: char) -> bool {
    ||| c == '\u{9}' || c == '\u{a}' || c == '\u{b}' || c == '\u{c}' || c == '\u{d}' || c == ' '
    ||| c == '\u{85}' || c == '\u{a0}' || c == '\u{1680}'
    ||| '\u{2000}' <= c <= '\u{200a}'
    ||| c == '\u{2028}' || c == '\u{2029}' || c == '\u{202f}' || c == '\u{205f}' || c == '\u{3000}'
}

/// A character is white space exactly if it is one of the listed ones.
pub proof fn law_white_space(c: char)
    ensures
        text::is_white_space(c) <==> blank(c),
{
}

/// Whether a character can stand in a bare word: it is none of white space,
/// `#`, `{`, `}` and `"`.
pub open spec fn plain(c: char) -> bool {
    !blank(c) && c != '#' && c != '{' && c != '}' && c != '"'
}

/// A bare word is one token: it goes on up to the first character that is
/// white space, `#`, `{`, `}` or `"`, or to the end.
pub proof fn law_bare_word_is_one_token(w: Seq<char>, rest: Seq<char>)
    requires
        w.len() > 0,
        forall|k: int|
            0 <= k < w.len() ==> !blank(#[trigger] w[k]) && w[k] != '#' && w[k] != '{' && w[k]
                != '}' && w[k] != '"',
        rest.len() == 0 || blank(rest[0]) || rest[0] == '#' || rest[0] == '{' || rest[0] == '}'
            || rest[0] == '"',
    ensures
        config::lexed(w + rest) == seq![Lexeme::Text(w)] + config::lexed(rest),
{
    let s = w + rest;
    let tail = s.skip(1);
    let n = w.len() - 1;
    let stops = config::ends_word();
    assert(s[0] == w[0]);
    law_white_space(w[0]);
    assert forall|k: int| 0 <= k < n implies !stops(#[trigger] tail[k]) by {
        assert(tail[k] == w[k + 1]);
        law_white_space(w[k + 1]);
    }
    if rest.len() > 0 {
        assert(tail[n] == rest[0]);
        law_white_space(rest[0]);
    }
    text::lemma_span(tail, stops, n);
    assert(s.take(n + 1) =~= w);
    assert(tail.skip(n) =~= rest);
}

/// Braces and line ends are tokens of their own, wherever a token can begin.
pub proof fn law_marks_are_tokens(rest: Seq<char>)
    ensures
        config::lexed(seq!['{'] + rest) == seq![Lexeme::OpenBrace] + config::lexed(rest),
        config::lexed(seq!['}'] + rest) == seq![Lexeme::CloseBrace] + config::lexed(rest),
        config::lexed(seq!['\n'] + rest) == seq![Lexeme::Newline] + config::lexed(rest),
        config::lexed(Seq::empty()) == Seq::<Lexeme>::empty(),
{
    assert((seq!['{'] + rest).skip(1) =~= rest);
    assert((seq!['}'] + rest).skip(1) =~= rest);
    assert((seq!['\n'] + rest).skip(1) =~= rest);
}

/// A quotation that is not closed goes on to the end.
pub proof fn law_open_quotation(quoted: Seq<char>)
    requires
        !quoted.contains('"'),
    ensures
        config::lexed(seq!['"'] + quoted) == seq![Lexeme::Text(quoted)],
{
    let s = seq!['"'] + quoted;
    let tail = s.skip(1);
    let stops = text::at_char('"');
    assert(tail =~= quoted);
    assert forall|k: int| 0 <= k < tail.len() implies !stops(#[trigger] tail[k]) by {
        assert(quoted.contains(quoted[k]));
    }
    text::lemma_span(tail, stops, tail.len() as int);
    assert(tail.take(tail.len() as int) =~= quoted);
    assert(tail.skip(tail.len() as int).len() == 0);
    assert(config::lexed(s) =~= seq![Lexeme::Text(quoted)]);
}

/// Whether a word can be written without quotes.
pub open spec fn is_bare(w: Seq<char>) -> bool {
    w.len() > 0 && forall|k: int| 0 <= k < w.len() ==> plain(#[trigger] w[k])
}

/// A token as it is written: a word that needs no quotes with a space behind
/// it, any other word in quotes.
pub open spec fn spelled(t: Lexeme) -> Seq<char> {
    match t {
        Lexeme::Text(w) => if is_bare(w) {
            w + seq![' ']
        } else {
            seq!['"'] + w + seq!['"']
        },
        Lexeme::OpenBrace => seq!['{'],
        Lexeme::CloseBrace => seq!['}'],
        Lexeme::Newline => seq!['\n'],
    }
}

/// Tokens as they are written.
pub open spec fn spelled_all(t: Seq<Lexeme>) -> Seq<char>
    decreases t.len(),
{
    if t.len() == 0 {
        Seq::empty()
    } else {
        spelled(t[0]) + spelled_all(t.skip(1))
    }
}

/// Tokens that are written down are read back, as long as no word holds a
/// double quote.
pub proof fn law_tokens_are_read_back(t: Seq<Lexeme>)
    requires
        forall|k: int|
            0 <= k < t.len() ==> ((#[trigger] t[k]) matches Lexeme::Text(w) ==> !w.contains('"')),
    ensures
        config::lexed(spelled_all(t)) == t,
    decreases t.len(),
{
    if t.len() == 0 {
        law_marks_are_tokens(Seq::empty());
        assert(config::lexed(spelled_all(t)) =~= t);
    } else {
        let rest = spelled_all(t.skip(1));
        assert forall|k: int| 0 <= k < t.skip(1).len() implies ((
        #[trigger] t.skip(1)[k]) matches Lexeme::Text(w) ==> !w.contains('"')) by {
            assert(t.skip(1)[k] == t[k + 1]);
        }
        law_tokens_are_read_back(t.skip(1));
        law_marks_are_tokens(rest);
        if let Lexeme::Text(w) = t[0] {
            if is_bare(w) {
                assert(w + seq![' '] + rest =~= w + (seq![' '] + rest));
                assert forall|k: int| 0 <= k < w.len() implies !blank(#[trigger] w[k]) && w[k]
                    != '#' && w[k] != '{' && w[k] != '}' && w[k] != '"' by {
                    assert(plain(w[k]));
                }
                law_bare_word_is_one_token(w, seq![' '] + rest);
                config::law_blank_is_invisible(' ', rest);
            } else {
                config::law_quoted_text_is_one_token(w, rest);
            }
        }
        assert(seq![t[0]] + t.skip(1) =~= t);
    }
}

/// Words as tokens.
pub open spec fn words(v: Seq<Seq<char>>) -> Seq<Lexeme> {
    v.map_values(|w: Seq<char>| Lexeme::Text(w))
}

/// A directive as it is written: its name and arguments on one line, and its
/// block, where it has one, in braces behind them.
pub open spec fn line(d: Directive) -> Seq<Lexeme>
    decreases d,
{
    seq![Lexeme::Text(d.name)] + words(d.args) + (if d.block.len() > 0 {
        seq![Lexeme::OpenBrace, Lexeme::Newline] + lines(d.block) + seq![Lexeme::CloseBrace]
    } else {
        Seq::empty()
    }) + seq![Lexeme::Newline]
}

/// Directives as they are written, one behind the other.
pub open spec fn lines(ds: Seq<Directive>) -> Seq<Lexeme>
    decreases ds,
{
    if ds.len() == 0 {
        Seq::empty()
    } else {
        line(ds[0]) + lines(ds.skip(1))
    }
}

/// The arguments of a directive end in front of the first token that is no
/// word.
proof fn lemma_args_end_at(t: Seq<Lexeme>, i: int, e: int)
    requires
        0 <= i <= e < t.len(),
        forall|k: int| i <= k < e ==> #[trigger] t[k] is Text,
        !(t[e] is Text),
    ensures
        config::args_end(t, i) == e,
    decreases e - i,
{
    if i < e {
        assert(t[i] is Text);
        lemma_args_end_at(t, i + 1, e);
    }
}

/// A written directive is read up to the end of its line.
proof fn lemma_line_is_read(t: Seq<Lexeme>, i: int, d: Directive)
    requires
        0 <= i,
        i + line(d).len() <= t.len(),
        t.subrange(i, i + line(d).len()) == line(d),
    ensures
        line(d).len() >= 2,
        t[i] is Text,
        t[i + line(d).len() - 1] is Newline,
        config::directive_at(t, i) == (d, i + line(d).len() - 1),
    decreases d, 0int,
{
    let l = line(d);
    let a = d.args.len() as int;
    let e = i + 1 + a;
    assert forall|k: int| 0 <= k < l.len() implies #[trigger] t[i + k] == l[k] by {
        assert(t.subrange(i, i + l.len())[k] == t[i + k]);
    }
    assert(t[i + 0] == l[0]);
    assert forall|k: int| i + 1 <= k < e implies #[trigger] t[k] is Text by {
        assert(t[i + (k - i)] == l[k - i]);
        assert(l[k - i] == words(d.args)[k - i - 1]);
    }
    assert(t[i + (a + 1)] == l[a + 1]);
    if d.block.len() > 0 {
        let inner = lines(d.block);
        assert(l[a + 1] is OpenBrace);
        assert(l[a + 2] is Newline);
        assert(t[i + (a + 2)] == l[a + 2]);
        lemma_args_end_at(t, i + 1, e);
        let all = inner + seq![Lexeme::CloseBrace];
        assert(t.subrange(e + 2, e + 2 + all.len()) =~= all) by {
            assert forall|k: int| 0 <= k < all.len() implies t[e + 2 + k] == all[k] by {
                assert(t[i + (a + 3 + k)] == l[a + 3 + k]);
                assert(l[a + 3 + k] == all[k]);
            }
        }
        lemma_lines_are_read(t, e + 2, d.block);
        assert(config::block_at(t, e + 1) == config::block_at(t, e + 2));
    } else {
        assert(l[a + 1] is Newline);
        lemma_args_end_at(t, i + 1, e);
        assert(d.block =~= Seq::empty());
    }
    assert(t[i + (l.len() - 1)] == l[l.len() - 1]);
    assert(config::texts_between(t, i + 1, e) =~= d.args) by {
        assert forall|k: int| 0 <= k < a implies #[trigger] config::texts_between(t, i + 1, e)[k]
            == d.args[k] by {
            assert(t[i + (k + 1)] == l[k + 1]);
            assert(l[k + 1] == words(d.args)[k]);
        }
    }
}

/// Written directives are read up to the brace that closes their block.
proof fn lemma_lines_are_read(t: Seq<Lexeme>, i: int, ds: Seq<Directive>)
    requires
        0 <= i,
        i + lines(ds).len() + 1 <= t.len(),
        t.subrange(i, i + lines(ds).len() + 1) == lines(ds) + seq![Lexeme::CloseBrace],
    ensures
        config::block_at(t, i) == (ds, i + lines(ds).len() + 1),
    decreases ds, 1int,
{
    let all = lines(ds) + seq![Lexeme::CloseBrace];
    assert forall|k: int| 0 <= k < all.len() implies #[trigger] t[i + k] == all[k] by {
        assert(t.subrange(i, i + all.len())[k] == t[i + k]);
    }
    if ds.len() == 0 {
        assert(t[i + 0] == all[0]);
        assert(ds =~= Seq::empty());
    } else {
        let first = line(ds[0]);
        let rest = lines(ds.skip(1)) + seq![Lexeme::CloseBrace];
        assert(t.subrange(i, i + first.len()) =~= first) by {
            assert forall|k: int| 0 <= k < first.len() implies t[i + k] == first[k] by {
                assert(t[i + k] == all[k]);
                assert(all[k] == first[k]);
            }
        }
        lemma_line_is_read(t, i, ds[0]);
        let j = i + first.len();
        assert(t.subrange(j, j + rest.len()) =~= rest) by {
            assert forall|k: int| 0 <= k < rest.len() implies t[j + k] == rest[k] by {
                assert(t[i + (first.len() + k)] == all[first.len() + k]);
                assert(all[first.len() + k] == rest[k]);
            }
        }
        lemma_lines_are_read(t, j, ds.skip(1));
        assert(config::block_at(t, j - 1) == config::block_at(t, j));
        assert(seq![ds[0]] + ds.skip(1) =~= ds);
    }
}

/// Directives that are written down, with blocks inside blocks to any depth,
/// are read back as they were, wherever their block stands; what is behind the
/// brace that closes it has no part in it.
pub proof fn law_block_is_read_back(before: Seq<Lexeme>, ds: Seq<Directive>, rest: Seq<Lexeme>)
    ensures
        config::block_at(
            before + lines(ds) + seq![Lexeme::CloseBrace] + rest,
            before.len() as int,
        ) == (ds, before.len() + lines(ds).len() + 1int),
{
    let t = before + lines(ds) + seq![Lexeme::CloseBrace] + rest;
    let i = before.len() as int;
    assert(t.subrange(i, i + lines(ds).len() + 1) =~= lines(ds) + seq![Lexeme::CloseBrace]);
    lemma_lines_are_read(t, i, ds);
}

/// A part of a Corefile: names in front of one block.
pub struct Section {
    pub names: Seq<Seq<char>>,
    pub block: Seq<Directive>,
}

/// A part of a Corefile as it is written.
pub open spec fn section(s: Section) -> Seq<Lexeme> {
    words(s.names) + seq![Lexeme::OpenBrace, Lexeme::Newline] + lines(s.block) + seq![
        Lexeme::CloseBrace,
        Lexeme::Newline,
    ]
}

/// A Corefile as it is written.
pub open spec fn sections(v: Seq<Section>) -> Seq<Lexeme>
    decreases v.len(),
{
    if v.len() == 0 {
        Seq::empty()
    } else {
        section(v[0]) + sections(v.skip(1))
    }
}

/// The zones of a Corefile: one for each name, with the directives behind it.
pub open spec fn zones(v: Seq<Section>) -> Seq<ZoneText>
    decreases v.len(),
{
    if v.len() == 0 {
        Seq::empty()
    } else {
        v[0].names.map_values(|name: Seq<char>| ZoneText { name, plugins: v[0].block }) + zones(
            v.skip(1),
        )
    }
}

/// Names are collected up to the opening brace.
proof fn lemma_names_are_collected(t: Seq<Lexeme>, i: int, names: Seq<Seq<char>>, k: int)
    requires
        0 <= i,
        0 <= k <= names.len(),
        i + names.len() <= t.len(),
        t.subrange(i, i + names.len()) == words(names),
    ensures
        config::zones_at(t, i, Seq::empty()) == config::zones_at(t, i + k, names.take(k)),
    decreases k,
{
    if k == 0 {
        assert(names.take(0) =~= Seq::empty());
    } else {
        lemma_names_are_collected(t, i, names, k - 1);
        assert(t.subrange(i, i + names.len())[k - 1] == t[i + k - 1]);
        assert(names.take(k - 1).push(names[k - 1]) =~= names.take(k));
    }
}

/// Zones are read from the place where a part begins.
proof fn lemma_sections_are_read(t: Seq<Lexeme>, i: int, v: Seq<Section>)
    requires
        0 <= i,
        i + sections(v).len() == t.len(),
        t.subrange(i, t.len() as int) == sections(v),
    ensures
        config::zones_at(t, i, Seq::empty()) == zones(v),
    decreases v.len(),
{
    if v.len() > 0 {
        let s = v[0];
        let first = section(s);
        let n = s.names.len() as int;
        let inner = lines(s.block);
        let all = sections(v);
        assert forall|k: int| 0 <= k < all.len() implies #[trigger] t[i + k] == all[k] by {
            assert(t.subrange(i, t.len() as int)[k] == t[i + k]);
        }
        assert forall|k: int| 0 <= k < first.len() implies #[trigger] t[i + k] == first[k] by {
            assert(t[i + k] == all[k]);
        }
        assert(t.subrange(i, i + n) =~= words(s.names)) by {
            assert forall|k: int| 0 <= k < n implies t[i + k] == words(s.names)[k] by {
                assert(t[i + k] == first[k]);
            }
        }
        lemma_names_are_collected(t, i, s.names, n);
        assert(s.names.take(n) =~= s.names);
        assert(t[i + n] == first[n]);
        assert(t[i + (n + 1)] == first[n + 1]);
        let b = i + n + 2;
        let block = inner + seq![Lexeme::CloseBrace];
        assert(t.subrange(b, b + block.len()) =~= block) by {
            assert forall|k: int| 0 <= k < block.len() implies t[b + k] == block[k] by {
                assert(t[i + (n + 2 + k)] == first[n + 2 + k]);
                assert(first[n + 2 + k] == block[k]);
            }
        }
        lemma_lines_are_read(t, b, s.block);
        assert(config::block_at(t, i + n + 1) == config::block_at(t, b));
        let j = b + block.len();
        assert(t[i + (first.len() - 1)] == first[first.len() - 1]);
        assert(t[j] is Newline);
        let tail = v.skip(1);
        assert(t.subrange(j + 1, t.len() as int) =~= sections(tail)) by {
            assert forall|k: int| 0 <= k < sections(tail).len() implies t[j + 1 + k] == sections(
                tail,
            )[k] by {
                assert(t[i + (first.len() + k)] == all[first.len() + k]);
            }
        }
        lemma_sections_are_read(t, j + 1, tail);
        let made = config::zones_of(s.names, s.block);
        assert(config::zones_at(t, i + n, s.names) == made + config::zones_at(
            t,
            j,
            Seq::empty(),
        ));
        assert(config::zones_at(t, j, Seq::empty()) == config::zones_at(t, j + 1, Seq::empty()));
        assert(zones(v) =~= made + zones(tail));
        assert(config::zones_at(t, i, Seq::empty()) =~= zones(v));
    }
}

/// A Corefile that is written down is read back: one zone for each name, in
/// order, with the directives of the block behind it.
pub proof fn law_zones_are_read_back(v: Seq<Section>)
    requires
        forall|k: int|
            0 <= k < sections(v).len() ==> ((
            #[trigger] sections(v)[k]) matches Lexeme::Text(w) ==> !w.contains('"')),
    ensures
        config::zones_in(spelled_all(sections(v))) == zones(v),
{
    let t = sections(v);
    law_tokens_are_read_back(t);
    assert(t.subrange(0, t.len() as int) =~= t);
    lemma_sections_are_read(t, 0, v);
}

/// The place of a plugin in the chain, by its name.
pub open spec fn place(name: Seq<char>) -> int {
    if name == "log"@ {
        0
    } else if name == "errors"@ {
        1
    } else if name == "whoami"@ {
        2
    } else if name == "reload"@ {
        3
    } else if name == "prometheus"@ {
        4
    } else if name == "cache"@ {
        5
    } else if name == "forward"@ {
        6
    } else if name == "health"@ {
        7
    } else {
        8
    }
}

/// Whether a plugin of that name is made.
pub open spec fn makes_a_plugin(name: Seq<char>) -> bool {
    place(name) < 8 || name == "dummy"@
}

/// The names of the plugins differ in their first letters.
proof fn lemma_names()
    ensures
        "log"@[0] == 'l',
        "errors"@[0] == 'e',
        "whoami"@[0] == 'w',
        "reload"@[0] == 'r',
        "prometheus"@[0] == 'p',
        "cache"@[0] == 'c',
        "forward"@[0] == 'f',
        "health"@[0] == 'h',
        "dummy"@[0] == 'd',
{
    reveal_strlit("log");
    reveal_strlit("errors");
    reveal_strlit("whoami");
    reveal_strlit("reload");
    reveal_strlit("prometheus");
    reveal_strlit("cache");
    reveal_strlit("forward");
    reveal_strlit("health");
    reveal_strlit("dummy");
}

/// The number by which the chain is ordered, for each place.
pub open spec fn rank_at(place: int) -> int {
    if place == 0 {
        255
    } else if place == 1 {
        220
    } else if place == 2 {
        200
    } else if place == 3 {
        190
    } else if place == 4 {
        150
    } else if place == 5 {
        120
    } else if place == 6 {
        100
    } else if place == 7 {
        10
    } else {
        0
    }
}

/// Exactly the nine names make plugins, and each has its rank.
pub proof fn law_plugins_by_name(name: Seq<char>)
    ensures
        plugin::known(name) <==> makes_a_plugin(name),
        plugin::rank_called(name) == rank_at(place(name)),
{
    lemma_names();
}

/// Holds of the directives that make plugins.
pub open spec fn makes() -> spec_fn(Directive) -> bool {
    |d: Directive| makes_a_plugin(d.name)
}

/// The plugins of a zone are those of its directives that make one, none left
/// out and none added.
pub proof fn law_every_known_directive_makes_a_plugin(ds: Seq<Directive>, free: bool)
    ensures
        config::setups(ds, free).map_values(|s: Setup| s.directive) == ds.filter(makes()),
    decreases ds.len(),
{
    reveal(Seq::filter);
    if ds.len() > 0 {
        law_every_known_directive_makes_a_plugin(ds.drop_last(), free);
        law_plugins_by_name(ds.last().name);
    }
    assert(config::setups(ds, free).map_values(|s: Setup| s.directive) =~= ds.filter(makes()));
}

/// Holds of the setups of the plugins at a place.
pub open spec fn stands_at(p: int) -> spec_fn(Setup) -> bool {
    |s: Setup| place(s.directive.name) == p
}

/// Choosing by rank is choosing by place.
proof fn lemma_of_rank_is_filter(v: Seq<Setup>, p: int)
    requires
        0 <= p <= 8,
    ensures
        config::of_rank(v, rank_at(p)) == v.filter(stands_at(p)),
    decreases v.len(),
{
    reveal(Seq::filter);
    if v.len() > 0 {
        lemma_of_rank_is_filter(v.drop_last(), p);
        law_plugins_by_name(v.last().directive.name);
    }
}

/// The chain of a zone holds, for every place, exactly the plugins at that
/// place, in the order in which they are written: none is lost, none is
/// doubled, and plugins of one kind keep their order.
pub proof fn law_chain_keeps_every_plugin(v: Seq<Setup>, p: int)
    requires
        0 <= p <= 8,
    ensures
        config::arranged(v).filter(stands_at(p)) == v.filter(stands_at(p)),
{
    config::law_chain_is_stable(v, rank_at(p));
    lemma_of_rank_is_filter(v, p);
    lemma_of_rank_is_filter(config::arranged(v), p);
}

/// The chain of a zone is in the order log, errors, whoami, reload,
/// prometheus, cache, forward, health, dummy, however it is written.
pub proof fn law_chain_order(v: Seq<Setup>, i: int, j: int)
    requires
        0 <= i < j < config::arranged(v).len(),
    ensures
        place(config::arranged(v)[i].directive.name) <= place(
            config::arranged(v)[j].directive.name,
        ),
{
    config::law_chain_is_sorted(v, i, j);
    law_plugins_by_name(config::arranged(v)[i].directive.name);
    law_plugins_by_name(config::arranged(v)[j].directive.name);
}

/// A block that is not closed ends with the input.
pub proof fn law_open_block_ends_with_the_input(before: Seq<Lexeme>, ds: Seq<Directive>)
    ensures
        config::block_at(before + lines(ds), before.len() as int) == (
            ds,
            before.len() + lines(ds).len() + 0int,
        ),
    decreases ds,
{
    let t = before + lines(ds);
    let i = before.len() as int;
    if ds.len() == 0 {
        assert(ds =~= Seq::empty());
    } else {
        let first = line(ds[0]);
        let tail = ds.skip(1);
        assert(t.subrange(i, i + first.len()) =~= first);
        lemma_line_is_read(t, i, ds[0]);
        law_open_block_ends_with_the_input(before + first, tail);
        assert(before + first + lines(tail) =~= t);
        let j = i + first.len();
        assert(config::block_at(t, j - 1) == config::block_at(t, j));
        assert(seq![ds[0]] + tail =~= ds);
    }
}

/// A directive may stand on one line with the brace that closes its block.
pub proof fn law_block_on_one_line(
    before: Seq<Lexeme>,
    name: Seq<char>,
    args: Seq<Seq<char>>,
    rest: Seq<Lexeme>,
)
    ensures
        config::block_at(
            before + seq![Lexeme::Text(name)] + words(args) + seq![Lexeme::CloseBrace] + rest,
            before.len() as int,
        ) == (
            seq![Directive { name, args, block: Seq::empty() }],
            before.len() + args.len() + 2int,
        ),
{
    let t = before + seq![Lexeme::Text(name)] + words(args) + seq![Lexeme::CloseBrace] + rest;
    let i = before.len() as int;
    let e = i + 1 + args.len();
    assert(t[i] == Lexeme::Text(name));
    assert forall|k: int| i + 1 <= k < e implies #[trigger] t[k] is Text by {
        assert(t[k] == words(args)[k - i - 1]);
    }
    assert(t[e] is CloseBrace);
    lemma_args_end_at(t, i + 1, e);
    assert(config::texts_between(t, i + 1, e) =~= args);
    let d = Directive { name, args, block: Seq::empty() };
    assert(config::directive_at(t, i) == (d, e));
    assert(config::block_at(t, e) == (Seq::<Directive>::empty(), e + 1));
    assert(seq![d] + Seq::<Directive>::empty() =~= seq![d]);
}

/// Between directives, line ends and stray opening braces are passed over.
/// Between zones, a line end forgets the names in front of it and a stray
/// closing brace does not; an opening brace behind no name makes no zone.
pub proof fn law_loose_tokens(t: Seq<Lexeme>, i: int, names: Seq<Seq<char>>)
    requires
        0 <= i < t.len(),
    ensures
        t[i] is Newline || t[i] is OpenBrace ==> config::block_at(t, i) == config::block_at(
            t,
            i + 1,
        ),
        t[i] is CloseBrace ==> config::block_at(t, i) == (Seq::<Directive>::empty(), i + 1),
        t[i] is Newline ==> config::zones_at(t, i, names) == config::zones_at(
            t,
            i + 1,
            Seq::empty(),
        ),
        t[i] is CloseBrace ==> config::zones_at(t, i, names) == config::zones_at(t, i + 1, names),
        t[i] is OpenBrace ==> config::zones_at(t, i, Seq::empty()) == config::zones_at(
            t,
            config::block_at(t, i + 1).1,
            Seq::empty(),
        ),
{
    if t[i] is OpenBrace {
        config::lemma_block_advances(t, i + 1);
        let made = config::zones_of(Seq::empty(), config::block_at(t, i + 1).0);
        let rest = config::zones_at(t, config::block_at(t, i + 1).1, Seq::empty());
        assert(made.len() == 0);
        assert(made + rest =~= rest);
    }
}

/// A zone has the name that is written and one plugin for each directive that
/// makes one, each made for its directive, in the order of the chain.
pub proof fn law_zone_is_built(zone: ZoneConfig, z: ZoneText, shared: Setting)
    requires
        zone.built_from(z, shared),
    ensures
        zone.name@ == z.name,
        zone.plugins@.len() == z.plugins.filter(makes()).len(),
        forall|i: int, j: int|
            0 <= i < j < zone.plugins@.len() ==> place((#[trigger] zone.plugins@[i]).called())
                <= place((#[trigger] zone.plugins@[j]).called()),
        forall|k: int|
            0 <= k < zone.plugins@.len() ==> {
                let s = config::arranged(config::setups(z.plugins, shared.error_rx))[k];
                &&& (#[trigger] zone.plugins@[k]).called() == s.directive.name
                &&& zone.plugins@[k].configured(
                    s.directive,
                    (Setting {
                        error_rx: s.free,
                        config_path: shared.config_path,
                        zone: Some(config::scope_of(z)),
                    }),
                )
            },
        config::scope_of(z).name == z.name,
        config::scope_of(z).plugins.len() == z.plugins.len(),
        forall|k: int|
            0 <= k < z.plugins.len() ==> config::scope_of(z).plugins[k] == (
            #[trigger] z.plugins[k]).name,
{
    let v = config::setups(z.plugins, shared.error_rx);
    law_every_known_directive_makes_a_plugin(z.plugins, shared.error_rx);
    assert(v.map_values(|s: Setup| s.directive).len() == v.len());
    config::law_chain_is_as_long(v);
    assert forall|i: int, j: int| 0 <= i < j < zone.plugins@.len() implies place(
        (#[trigger] zone.plugins@[i]).called(),
    ) <= place((#[trigger] zone.plugins@[j]).called()) by {
        law_chain_order(v, i, j);
    }
}

/// Whether none of the directives makes a plugin that reads error reports.
pub open spec fn none_reads(ds: Seq<Directive>) -> bool {
    forall|k: int| 0 <= k < ds.len() ==> (#[trigger] ds[k]).name != "errors"@
}

/// The first plugin that reads error reports gets them, and no later one, in
/// its zone or another: they are free for a plugin exactly if no directive in
/// front of it, in its zone or an earlier one, is named `errors`.
pub proof fn law_who_reads_errors(
    zones: Seq<ZoneText>,
    before: Seq<Directive>,
    d: Directive,
    free: bool,
)
    requires
        makes_a_plugin(d.name),
    ensures
        config::setups(before.push(d), free).len() > 0,
        config::setups(before.push(d), free).last().directive == d,
        config::setups(before.push(d), free).last().free == (free && none_reads(before)),
        config::free_after_zones(zones, free) == (free && forall|z: int|
            0 <= z < zones.len() ==> none_reads((#[trigger] zones[z]).plugins)),
    decreases zones.len(),
{
    assert(before.push(d).drop_last() =~= before);
    law_plugins_by_name(d.name);
    config::law_one_reader_of_errors(before, free);
    if zones.len() > 0 {
        let front = zones.drop_last();
        let seen = config::free_after_zones(front, free);
        law_who_reads_errors(front, before, d, free);
        config::law_one_reader_of_errors(zones.last().plugins, seen);
        assert(zones[zones.len() - 1] == zones.last());
        if forall|z: int| 0 <= z < front.len() ==> none_reads((#[trigger] front[z]).plugins) {
            if none_reads(zones.last().plugins) {
                assert forall|z: int| 0 <= z < zones.len() implies none_reads(
                    (#[trigger] zones[z]).plugins,
                ) by {
                    if z < front.len() {
                        assert(none_reads(front[z].plugins));
                    }
                }
            }
        }
        if forall|z: int| 0 <= z < zones.len() ==> none_reads((#[trigger] zones[z]).plugins) {
            assert forall|z: int| 0 <= z < front.len() implies none_reads(
                (#[trigger] front[z]).plugins,
            ) by {
                assert(none_reads(zones[z].plugins));
            }
        }
    }
}

} // verus!
