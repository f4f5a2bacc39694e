//! The Corefile: its tokens, its blocks and the zones they describe.

use crate::plugin;
use crate::plugin::cache::CachePlugin;
use crate::plugin::errors::ErrorsPlugin;
use crate::plugin::forward::ForwardPlugin;
use crate::plugin::{
    create_plugin, Plugin, PluginError, PluginInstance, Scope, Setting, SharedState, ZoneScope,
};
use crate::text;
use crate::text::{chars_of, text_of, white_space};
use vstd::prelude::*;

verus! {

/// One directive of a block: a name, its arguments and an optional block of
/// further directives.
#[derive(Debug)]
pub struct PluginConfig {
    pub name: String,
    pub args: Vec<String>,
    pub block: Vec<PluginConfig>,
}

/// What a directive says.
pub struct Directive {
    pub name: Seq<char>,
    pub args: Seq<Seq<char>>,
    pub block: Seq<Directive>,
}

/// A lexical unit of a Corefile.
#[derive(Debug, PartialEq)]
pub enum Token {
    Text(String),
    OpenBrace,
    CloseBrace,
    Newline,
}

/// What a token stands for.
pub enum Lexeme {
    Text(Seq<char>),
    OpenBrace,
    CloseBrace,
    Newline,
}

/// A zone as it is written: its name and the directives of its block.
pub struct RawZone {
    pub name: String,
    pub plugins: Vec<PluginConfig>,
}

/// What a zone says.
pub struct ZoneText {
    pub name: Seq<char>,
    pub plugins: Seq<Directive>,
}

impl PluginConfig {
    /// What the directive says.
    pub open spec fn says(self) -> Directive
        decreases self,
    {
        Directive {
            name: self.name@,
            args: text::texts(self.args@),
            block: Seq::new(
                self.block@.len(),
                |i: int|
                    if 0 <= i < self.block@.len() {
                        self.block@[i].says()
                    } else {
                        arbitrary()
                    },
            ),
        }
    }
}

impl View for PluginConfig {
    type V = Directive;

    open spec fn view(&self) -> Directive {
        self.says()
    }
}

/// What each directive of a list says.
pub open spec fn directives(v: Seq<PluginConfig>) -> Seq<Directive> {
    v.map_values(|p: PluginConfig| p.says())
}

impl View for Token {
    type V = Lexeme;

    open spec fn view(&self) -> Lexeme {
        match self {
            Token::Text(s) => Lexeme::Text(s@),
            Token::OpenBrace => Lexeme::OpenBrace,
            Token::CloseBrace => Lexeme::CloseBrace,
            Token::Newline => Lexeme::Newline,
        }
    }
}

/// What each token of a list stands for.
pub open spec fn lexemes(v: Seq<Token>) -> Seq<Lexeme> {
    v.map_values(|t: Token| t@)
}

impl View for RawZone {
    type V = ZoneText;

    open spec fn view(&self) -> ZoneText {
        ZoneText { name: self.name@, plugins: directives(self.plugins@) }
    }
}

/// Holds of the characters that end a bare word.
pub open spec fn ends_word() -> spec_fn(char) -> bool {
    |c: char| text::is_white_space(c) || c == '#' || c == '{' || c == '}' || c == '"'
}

/// The tokens of a Corefile. A comment runs from `#` to the end of its line; a
/// text in double quotes is one token and may hold anything but a double
/// quote; the end of the input closes an open quotation.
pub open spec fn lexed(s: Seq<char>) -> Seq<Lexeme>
    decreases s.len(),
{
    if s.len() == 0 {
        Seq::empty()
    } else if s[0] == '\n' {
        seq![Lexeme::Newline] + lexed(s.skip(1))
    } else if text::is_white_space(s[0]) {
        lexed(s.skip(1))
    } else if s[0] == '#' {
        proof {
            text::lemma_span_bounds(s.skip(1), text::at_char('\n'));
        }
        lexed(s.skip(1).skip(text::span(s.skip(1), text::at_char('\n')) as int))
    } else if s[0] == '{' {
        seq![Lexeme::OpenBrace] + lexed(s.skip(1))
    } else if s[0] == '}' {
        seq![Lexeme::CloseBrace] + lexed(s.skip(1))
    } else if s[0] == '"' {
        proof {
            text::lemma_span_bounds(s.skip(1), text::at_char('"'));
        }
        let n = text::span(s.skip(1), text::at_char('"')) as int;
        let rest = s.skip(1).skip(n);
        seq![Lexeme::Text(s.skip(1).take(n))] + if rest.len() == 0 {
            Seq::empty()
        } else {
            lexed(rest.skip(1))
        }
    } else {
        proof {
            text::lemma_span_bounds(s.skip(1), ends_word());
        }
        let n = text::span(s.skip(1), ends_word()) as int;
        seq![Lexeme::Text(s.take(n + 1))] + lexed(s.skip(1).skip(n))
    }
}

/// The position of the first character from `from` on at which `stop` is met,
/// or the length of the text.
fn find_char(v: &Vec<char>, from: usize, stop: char) -> (r: usize)
    requires
        from <= v@.len(),
    ensures
        from <= r <= v@.len(),
        r - from == text::span(v@.skip(from as int), text::at_char(stop)),
{
    let mut i: usize = from;
    while i < v.len() && v[i] != stop
        invariant
            from <= i <= v@.len(),
            forall|k: int| from <= k < i ==> #[trigger] v@[k] != stop,
        ensures
            from <= i <= v@.len(),
            forall|k: int| from <= k < i ==> #[trigger] v@[k] != stop,
            i < v@.len() ==> v@[i as int] == stop,
        decreases v@.len() - i,
    {
        i = i + 1;
    }
    proof {
        let s = v@.skip(from as int);
        assert forall|k: int| 0 <= k < i - from implies !text::at_char(stop)(#[trigger] s[k]) by {
            assert(s[k] == v@[from + k]);
        }
        text::lemma_span(s, text::at_char(stop), i - from);
    }
    i
}

/// The position of the first character from `from` on that ends a bare word,
/// or the length of the text.
fn find_word_end(v: &Vec<char>, from: usize) -> (r: usize)
    requires
        from <= v@.len(),
    ensures
        from <= r <= v@.len(),
        r - from == text::span(v@.skip(from as int), ends_word()),
{
    let mut i: usize = from;
    while i < v.len() && !(white_space(v[i]) || v[i] == '#' || v[i] == '{' || v[i] == '}' || v[i]
        == '"')
        invariant
            from <= i <= v@.len(),
            forall|k: int| from <= k < i ==> !ends_word()(#[trigger] v@[k]),
        ensures
            from <= i <= v@.len(),
            forall|k: int| from <= k < i ==> !ends_word()(#[trigger] v@[k]),
            i < v@.len() ==> ends_word()(v@[i as int]),
        decreases v@.len() - i,
    {
        i = i + 1;
    }
    proof {
        let s = v@.skip(from as int);
        assert forall|k: int| 0 <= k < i - from implies !ends_word()(#[trigger] s[k]) by {
            assert(s[k] == v@[from + k]);
        }
        text::lemma_span(s, ends_word(), i - from);
    }
    i
}

/// The first position from `i` on that does not hold a text.
pub open spec fn args_end(t: Seq<Lexeme>, i: int) -> int
    decreases t.len() - i,
{
    if 0 <= i < t.len() && t[i] is Text {
        args_end(t, i + 1)
    } else {
        i
    }
}

/// The texts of the tokens `t[from..to]`.
pub open spec fn texts_between(t: Seq<Lexeme>, from: int, to: int) -> Seq<Seq<char>> {
    t.subrange(from, to).map_values(|x: Lexeme| x->Text_0)
}

/// The end of the arguments is not before their start.
pub proof fn lemma_args_end(t: Seq<Lexeme>, i: int)
    requires
        0 <= i <= t.len(),
    ensures
        i <= args_end(t, i) <= t.len(),
        forall|k: int| i <= k < args_end(t, i) ==> #[trigger] t[k] is Text,
        args_end(t, i) < t.len() ==> !(t[args_end(t, i)] is Text),
    decreases t.len() - i,
{
    if i < t.len() && t[i] is Text {
        lemma_args_end(t, i + 1);
    }
}

/// The directive that starts with the text at position `i`, and the position
/// behind it: the texts that follow on the same line are its arguments; an
/// opening brace directly behind them starts its block.
pub open spec fn directive_at(t: Seq<Lexeme>, i: int) -> (Directive, int)
    decreases t.len() - i, 0int,
    when 0 <= i < t.len()
{
    proof {
        lemma_args_end(t, i + 1);
    }
    let e = args_end(t, i + 1);
    let args = texts_between(t, i + 1, e);
    if e < t.len() && t[e] is OpenBrace {
        let (block, j) = block_at(t, e + 1);
        (Directive { name: t[i]->Text_0, args, block }, j)
    } else {
        (Directive { name: t[i]->Text_0, args, block: Seq::empty() }, e)
    }
}

/// The directives of the block whose inside starts at position `i`, and the
/// position behind its closing brace (the end of the input closes it too).
/// Line ends and stray opening braces between directives are passed over.
pub open spec fn block_at(t: Seq<Lexeme>, i: int) -> (Seq<Directive>, int)
    decreases t.len() - i, 1int,
    when 0 <= i
{
    if i >= t.len() {
        (Seq::empty(), i)
    } else if t[i] is CloseBrace {
        (Seq::empty(), i + 1)
    } else if t[i] is Text {
        let (d, j) = directive_at(t, i);
        if i < j <= t.len() {
            let (rest, k) = block_at(t, j);
            (seq![d] + rest, k)
        } else {
            arbitrary()
        }
    } else {
        block_at(t, i + 1)
    }
}

/// Reading a directive or a block moves forward and stays within the input.
pub proof fn lemma_block_advances(t: Seq<Lexeme>, i: int)
    requires
        0 <= i <= t.len(),
    ensures
        i <= block_at(t, i).1 <= t.len(),
        i < t.len() ==> i < directive_at(t, i).1 <= t.len(),
    decreases t.len() - i,
{
    if i < t.len() {
        lemma_args_end(t, i + 1);
        let e = args_end(t, i + 1);
        if e < t.len() && t[e] is OpenBrace {
            lemma_block_advances(t, e + 1);
        }
        if t[i] is Text {
            let j = directive_at(t, i).1;
            lemma_block_advances(t, j);
        } else if !(t[i] is CloseBrace) {
            lemma_block_advances(t, i + 1);
        }
    }
}

/// The zones that the tokens from position `i` on describe, when `names` have
/// been read on the current line. Every name in front of an opening brace gets
/// a zone of its own with the directives of the block.
pub open spec fn zones_at(t: Seq<Lexeme>, i: int, names: Seq<Seq<char>>) -> Seq<ZoneText>
    decreases t.len() - i,
    when 0 <= i
{
    if i >= t.len() {
        Seq::empty()
    } else {
        match t[i] {
            Lexeme::Text(s) => zones_at(t, i + 1, names.push(s)),
            Lexeme::Newline => zones_at(t, i + 1, Seq::empty()),
            Lexeme::CloseBrace => zones_at(t, i + 1, names),
            Lexeme::OpenBrace => {
                let (plugins, j) = block_at(t, i + 1);
                proof {
                    lemma_block_advances(t, i + 1);
                }
                zones_of(names, plugins) + zones_at(t, j, Seq::empty())
            },
        }
    }
}

/// One zone for each name, all with the same directives.
pub open spec fn zones_of(names: Seq<Seq<char>>, plugins: Seq<Directive>) -> Seq<ZoneText> {
    names.map_values(|name: Seq<char>| ZoneText { name, plugins })
}

/// What each zone of a list says.
pub open spec fn zone_texts(v: Seq<RawZone>) -> Seq<ZoneText> {
    v.map_values(|z: RawZone| z@)
}

impl Clone for PluginConfig {
    fn clone(&self) -> (r: Self)
        ensures
            r@ == self@,
        decreases self,
    {
        let r = PluginConfig {
            name: self.name.clone(),
            args: clone_texts(&self.args),
            block: clone_configs(&self.block),
        };
        proof {
            assert(r@.block =~= directives(r.block@));
            assert(self@.block =~= directives(self.block@));
        }
        r
    }
}

/// A copy of a list of strings.
pub fn clone_texts(v: &Vec<String>) -> (r: Vec<String>)
    ensures
        text::texts(r@) == text::texts(v@),
{
    let mut r: Vec<String> = Vec::new();
    let mut i: usize = 0;
    while i < v.len()
        invariant
            i <= v@.len(),
            text::texts(r@) =~= text::texts(v@).take(i as int),
        decreases v@.len() - i,
    {
        let ghost before = r@;
        let c = v[i].clone();
        r.push(c);
        assert(text::texts(r@) =~= text::texts(before).push(c@));
        i = i + 1;
    }
    r
}

/// A copy of a list of directives.
pub fn clone_configs(v: &Vec<PluginConfig>) -> (r: Vec<PluginConfig>)
    ensures
        directives(r@) == directives(v@),
    decreases v,
{
    let mut r: Vec<PluginConfig> = Vec::new();
    let mut i: usize = 0;
    while i < v.len()
        invariant
            i <= v@.len(),
            directives(r@) =~= directives(v@).take(i as int),
        decreases v@.len() - i,
    {
        proof {
            assert(decreases_to!(v => v@[i as int]));
        }
        let ghost before = r@;
        let c = v[i].clone();
        r.push(c);
        assert(directives(r@) =~= directives(before).push(c@));
        i = i + 1;
    }
    r
}

/// A directive for which a plugin is made, and whether nobody reads the error
/// reports yet when that happens.
pub struct Setup {
    pub directive: Directive,
    pub free: bool,
}

/// Whether nobody reads the error reports after plugins were made for all the
/// directives.
pub open spec fn free_after(ds: Seq<Directive>, free: bool) -> bool
    decreases ds.len(),
{
    if ds.len() == 0 {
        free
    } else {
        free_after(ds.drop_last(), free) && ds.last().name != ErrorsPlugin::called()
    }
}

/// The directives for which plugins are made, in order; one with an unknown
/// name is passed over.
pub open spec fn setups(ds: Seq<Directive>, free: bool) -> Seq<Setup>
    decreases ds.len(),
{
    if ds.len() == 0 {
        Seq::empty()
    } else if plugin::known(ds.last().name) {
        setups(ds.drop_last(), free).push(
            Setup { directive: ds.last(), free: free_after(ds.drop_last(), free) },
        )
    } else {
        setups(ds.drop_last(), free)
    }
}

impl Setup {
    /// The place in the chain of the plugin.
    pub open spec fn rank(self) -> int {
        plugin::rank_called(self.directive.name) as int
    }
}

/// The setups of one rank, in order.
pub open spec fn of_rank(v: Seq<Setup>, rank: int) -> Seq<Setup>
    decreases v.len(),
{
    if v.len() == 0 {
        Seq::empty()
    } else if v.last().rank() == rank {
        of_rank(v.drop_last(), rank).push(v.last())
    } else {
        of_rank(v.drop_last(), rank)
    }
}

/// The setups of the ranks from `high` down to `low`: those of a higher rank
/// come first, and those of one rank keep their order.
pub open spec fn ranked(v: Seq<Setup>, high: int, low: int) -> Seq<Setup>
    decreases high - low + 1,
{
    if high < low {
        Seq::empty()
    } else {
        of_rank(v, high) + ranked(v, high - 1, low)
    }
}

/// The setups in the order of the chain.
pub open spec fn arranged(v: Seq<Setup>) -> Seq<Setup> {
    ranked(v, u8::MAX as int, 0)
}

/// Whether the plugins are those of the setups, in the same order.
pub open spec fn built(
    plugins: Seq<PluginInstance>,
    v: Seq<Setup>,
    shared: Setting,
) -> bool {
    &&& plugins.len() == v.len()
    &&& forall|k: int|
        0 <= k < plugins.len() ==> (#[trigger] plugins[k]).configured(
            v[k].directive,
            Setting { error_rx: v[k].free, ..shared },
        ) && plugins[k].rank() == v[k].rank()
}

/// A range of ranks can be cut in two.
proof fn lemma_ranked_cut(v: Seq<Setup>, high: int, mid: int, low: int)
    requires
        low <= mid <= high + 1,
    ensures
        ranked(v, high, low) == ranked(v, high, mid) + ranked(v, mid - 1, low),
    decreases high - low + 1,
{
    if mid <= high {
        lemma_ranked_cut(v, high - 1, mid, low);
    }
    assert(ranked(v, high, low) =~= ranked(v, high, mid) + ranked(v, mid - 1, low));
}

/// Another setup at the end comes last among those of its rank or above, and
/// does not touch the ranks that are not its own.
proof fn lemma_ranked_push(v: Seq<Setup>, s: Setup, high: int, low: int)
    ensures
        !(low <= s.rank() <= high) ==> ranked(v.push(s), high, low) == ranked(v, high, low),
        low == s.rank() <= high ==> ranked(v.push(s), high, low) == ranked(v, high, low).push(s),
    decreases high - low + 1,
{
    assert(v.push(s).drop_last() =~= v);
    if low <= high {
        lemma_ranked_push(v, s, high - 1, low);
        if low == s.rank() {
            assert(ranked(v.push(s), high, low) =~= ranked(v, high, low).push(s));
        }
    }
}

/// What is listed for a rank has that rank.
proof fn lemma_of_rank(v: Seq<Setup>, rank: int)
    ensures
        forall|k: int| 0 <= k < of_rank(v, rank).len() ==> (#[trigger] of_rank(v, rank)[k]).rank()
            == rank,
    decreases v.len(),
{
    if v.len() > 0 {
        let front = of_rank(v.drop_last(), rank);
        lemma_of_rank(v.drop_last(), rank);
        assert forall|k: int| 0 <= k < of_rank(v, rank).len() implies (#[trigger] of_rank(
            v,
            rank,
        )[k]).rank() == rank by {
            if k < front.len() {
                assert(of_rank(v, rank)[k] == front[k]);
            }
        }
    }
}

/// What is listed for a range of ranks is within it.
proof fn lemma_ranked_range(v: Seq<Setup>, high: int, low: int)
    ensures
        forall|k: int|
            0 <= k < ranked(v, high, low).len() ==> low <= (#[trigger] ranked(
                v,
                high,
                low,
            )[k]).rank() <= high,
    decreases high - low + 1,
{
    if low <= high {
        lemma_of_rank(v, high);
        lemma_ranked_range(v, high - 1, low);
        let a = of_rank(v, high);
        let b = ranked(v, high - 1, low);
        assert forall|k: int| 0 <= k < ranked(v, high, low).len() implies low <= (#[trigger] ranked(
            v,
            high,
            low,
        )[k]).rank() <= high by {
            if k < a.len() {
                assert(ranked(v, high, low)[k] == a[k]);
            } else {
                assert(ranked(v, high, low)[k] == b[k - a.len()]);
            }
        }
    }
}

/// Another setup is inserted in front of the first one of a lower rank.
proof fn lemma_arranged_push(v: Seq<Setup>, s: Setup, at: int)
    requires
        0 <= at <= arranged(v).len(),
        forall|k: int| 0 <= k < at ==> (#[trigger] arranged(v)[k]).rank() >= s.rank(),
        at < arranged(v).len() ==> arranged(v)[at].rank() < s.rank(),
    ensures
        arranged(v.push(s)) == arranged(v).insert(at, s),
{
    let high = u8::MAX as int;
    let r = s.rank();
    let a = ranked(v, high, r);
    let b = ranked(v, r - 1, 0);
    lemma_ranked_cut(v, high, r, 0);
    lemma_ranked_cut(v.push(s), high, r, 0);
    lemma_ranked_push(v, s, high, r);
    lemma_ranked_push(v, s, r - 1, 0);
    lemma_ranked_range(v, high, r);
    lemma_ranked_range(v, r - 1, 0);
    assert(arranged(v) == a + b);
    if at < a.len() {
        assert(arranged(v)[at] == a[at]);
    }
    if at > a.len() {
        assert(arranged(v)[a.len() as int] == b[0]);
    }
    assert(at == a.len());
    assert(arranged(v.push(s)) =~= arranged(v).insert(at, s));
}

/// A zone with its plugins in the order of the chain.
pub struct ZoneConfig {
    pub name: String,
    pub plugins: Vec<PluginInstance>,
}

impl ZoneConfig {
    /// Whether this is the zone that a text describes, with plugins made from
    /// the given shared state.
    pub open spec fn built_from(self, z: ZoneText, shared: Setting) -> bool {
        &&& self.name@ == z.name
        &&& built(
            self.plugins@,
            arranged(setups(z.plugins, shared.error_rx)),
            Setting { zone: Some(scope_of(z)), ..shared },
        )
    }
}

/// What the plugins of a zone learn of it when they are made.
pub open spec fn scope_of(z: ZoneText) -> Scope {
    Scope { name: z.name, plugins: z.plugins.map_values(|d: Directive| d.name) }
}

/// The names of a list of directives.
fn names_of(v: &Vec<PluginConfig>) -> (r: Vec<String>)
    ensures
        text::texts(r@) == directives(v@).map_values(|d: Directive| d.name),
{
    let ghost all = directives(v@).map_values(|d: Directive| d.name);
    let mut r: Vec<String> = Vec::new();
    let mut i: usize = 0;
    while i < v.len()
        invariant
            i <= v@.len(),
            all == directives(v@).map_values(|d: Directive| d.name),
            text::texts(r@) =~= all.take(i as int),
        decreases v@.len() - i,
    {
        let ghost before = r@;
        let name = v[i].name.clone();
        r.push(name);
        assert(text::texts(r@) =~= text::texts(before).push(name@));
        i = i + 1;
    }
    r
}

/// Puts a plugin behind the others of its rank or above.
fn insert_by_priority(plugins: &mut Vec<PluginInstance>, plugin: PluginInstance) -> (at: usize)
    ensures
        at <= old(plugins)@.len(),
        final(plugins)@ == old(plugins)@.insert(at as int, plugin),
        forall|k: int| 0 <= k < at ==> (#[trigger] old(plugins)@[k]).rank() >= plugin.rank(),
        at < old(plugins)@.len() ==> old(plugins)@[at as int].rank() < plugin.rank(),
{
    let rank: u8 = plugin.priority();
    let mut at: usize = 0;
    while at < plugins.len() && plugins[at].priority() >= rank
        invariant
            at <= plugins@.len(),
            plugins@ == old(plugins)@,
            rank == plugin.rank(),
            forall|k: int| 0 <= k < at ==> (#[trigger] plugins@[k]).rank() >= rank,
        ensures
            at <= plugins@.len(),
            plugins@ == old(plugins)@,
            forall|k: int| 0 <= k < at ==> (#[trigger] plugins@[k]).rank() >= rank,
            at < plugins@.len() ==> plugins@[at as int].rank() < rank,
        decreases plugins@.len() - at,
    {
        at = at + 1;
    }
    plugins.insert(at, plugin);
    at
}

/// Makes the plugins of a zone and puts them in the order of the chain.
fn build_zone(raw: RawZone, shared: &mut SharedState) -> (r: ZoneConfig)
    ensures
        r.built_from(raw@, old(shared)@),
        *final(shared) == (SharedState {
            error_rx: free_after(raw@.plugins, old(shared).error_rx),
            ..*old(shared)
        }),
{
    let ghost ds = raw@.plugins;
    let ghost free = shared.error_rx;
    let scope = ZoneScope { name: raw.name.clone(), plugins: names_of(&raw.plugins) };
    assert(scope@ == scope_of(raw@));
    let mut outer = Some(scope);
    std::mem::swap(&mut shared.zone, &mut outer);
    let ghost start = *shared;
    let mut plugins: Vec<PluginInstance> = Vec::new();
    let mut i: usize = 0;
    proof {
        assert(ds.take(0) =~= Seq::empty());
        lemma_ranked_empty(u8::MAX as int, 0);
        assert(arranged(setups(ds.take(0), free)) =~= Seq::empty());
    }
    while i < raw.plugins.len()
        invariant
            i <= raw.plugins@.len(),
            ds == directives(raw.plugins@),
            free == start.error_rx,
            built(plugins@, arranged(setups(ds.take(i as int), free)), start@),
            *shared == (SharedState { error_rx: free_after(ds.take(i as int), free), ..start }),
        decreases raw.plugins@.len() - i,
    {
        let ghost before = setups(ds.take(i as int), free);
        let ghost now_shared = *shared;
        proof {
            assert(ds.take(i + 1).drop_last() =~= ds.take(i as int));
            assert(ds.take(i + 1).last() == raw.plugins@[i as int]@);
        }
        match create_plugin(&raw.plugins[i], shared) {
            Ok(plugin) => {
                let ghost s = Setup { directive: ds[i as int], free: now_shared.error_rx };
                let ghost old_plugins = plugins@;
                let at = insert_by_priority(&mut plugins, plugin);
                proof {
                    let v = arranged(before);
                    assert forall|k: int| 0 <= k < at implies (#[trigger] v[k]).rank()
                        >= s.rank() by {
                        assert(old_plugins[k].rank() == v[k].rank());
                    }
                    lemma_arranged_push(before, s, at as int);
                    assert(setups(ds.take(i + 1), free) == before.push(s));
                    assert forall|k: int| 0 <= k < plugins@.len() implies (
                    #[trigger] plugins@[k]).configured(
                        v.insert(at as int, s)[k].directive,
                        Setting { error_rx: v.insert(at as int, s)[k].free, ..start@ },
                    ) && plugins@[k].rank() == v.insert(at as int, s)[k].rank() by {
                        if k < at {
                            assert(plugins@[k] == old_plugins[k]);
                        } else if k > at {
                            assert(plugins@[k] == old_plugins[k - 1]);
                        }
                    }
                }
            },
            Err(_) => {},
        }
        i = i + 1;
    }
    assert(ds.take(i as int) =~= ds);
    shared.zone = outer;
    ZoneConfig { name: raw.name, plugins }
}

/// Nothing is arranged where there is nothing.
proof fn lemma_ranked_empty(high: int, low: int)
    ensures
        ranked(Seq::empty(), high, low) == Seq::<Setup>::empty(),
    decreases high - low + 1,
{
    if low <= high {
        lemma_ranked_empty(high - 1, low);
        assert(ranked(Seq::empty(), high, low) =~= Seq::<Setup>::empty());
    }
}

/// Whether nobody reads the error reports after the plugins of all zones were
/// made.
pub open spec fn free_after_zones(zones: Seq<ZoneText>, free: bool) -> bool
    decreases zones.len(),
{
    if zones.len() == 0 {
        free
    } else {
        free_after(zones.last().plugins, free_after_zones(zones.drop_last(), free))
    }
}

/// The zones that a Corefile describes.
pub open spec fn zones_in(content: Seq<char>) -> Seq<ZoneText> {
    zones_at(lexed(content), 0, Seq::empty())
}

/// What is said where a configuration file cannot be read.
pub fn unreadable_file(path: &str, reason: &str) -> (r: String)
    ensures
        r@ == "Failed to read config file '"@ + path@ + "': "@ + reason@,
{
    let mut r = "Failed to read config file '".to_owned();
    r.append(path);
    r.append("': ");
    r.append(reason);
    r
}

/// The configuration of the server.
pub struct Config {
    pub zones: Vec<ZoneConfig>,
}

impl Config {
    /// Reads a Corefile and makes its plugins. This never fails: what cannot
    /// be read is passed over.
    pub fn parse(content: &str, shared: &mut SharedState) -> (r: Result<Config, PluginError>)
        ensures
            r is Ok,
            r->Ok_0.zones@.len() == zones_in(content@).len(),
            forall|i: int|
                0 <= i < zones_in(content@).len() ==> (#[trigger] r->Ok_0.zones@[i]).built_from(
                    zones_in(content@)[i],
                    (Setting {
                        error_rx: free_after_zones(
                            zones_in(content@).take(i),
                            old(shared).error_rx,
                        ),
                        ..old(shared)@
                    }),
                ),
            *final(shared) == (SharedState {
                error_rx: free_after_zones(zones_in(content@), old(shared).error_rx),
                ..*old(shared)
            }),
    {
        let tokens = Self::lex(content);
        let mut raw_zones = Self::parse_tokens(&tokens);
        let ghost all = zones_in(content@);
        let ghost start = *shared;
        let mut zones: Vec<ZoneConfig> = Vec::new();
        assert(all.take(0) =~= Seq::empty());
        while raw_zones.len() > 0
            invariant
                zones@.len() + raw_zones@.len() == all.len(),
                zone_texts(raw_zones@) == all.skip(zones@.len() as int),
                start == *old(shared),
                forall|i: int|
                    0 <= i < zones@.len() ==> (#[trigger] zones@[i]).built_from(
                        all[i],
                        Setting {
                            error_rx: free_after_zones(all.take(i), start.error_rx),
                            ..start@
                        },
                    ),
                *shared == (SharedState {
                    error_rx: free_after_zones(all.take(zones@.len() as int), start.error_rx),
                    ..start
                }),
            decreases raw_zones@.len(),
        {
            let ghost n = zones@.len() as int;
            let ghost before = raw_zones@;
            let raw = raw_zones.remove(0);
            proof {
                assert(zone_texts(before)[0] == raw@);
                assert(zone_texts(raw_zones@) =~= zone_texts(before).skip(1));
                assert(all.skip(n).skip(1) =~= all.skip(n + 1));
                assert(all.take(n + 1).drop_last() =~= all.take(n));
                assert(all.take(n + 1).last() == raw@);
            }
            let zone = build_zone(raw, shared);
            zones.push(zone);
        }
        assert(all.take(zones@.len() as int) =~= all);
        Ok(Config { zones })
    }

    /// Splits a Corefile into its tokens.
    pub fn lex(input: &str) -> (tokens: Vec<Token>)
        ensures
            lexemes(tokens@) == lexed(input@),
    {
        let v = chars_of(input);
        let n: usize = v.len();
        let mut tokens: Vec<Token> = Vec::new();
        let mut i: usize = 0;
        assert(v@.skip(0) =~= v@);
        while i < n
            invariant
                i <= n == v@.len(),
                lexemes(tokens@) + lexed(v@.skip(i as int)) =~= lexed(v@),
            decreases n - i,
        {
            let c: char = v[i];
            let ghost s = v@.skip(i as int);
            let ghost before = tokens@;
            assert(s[0] == c);
            assert(s.skip(1) =~= v@.skip(i + 1));
            if c == '\n' {
                tokens.push(Token::Newline);
                i = i + 1;
                assert(lexemes(tokens@) =~= lexemes(before).push(Lexeme::Newline));
            } else if white_space(c) {
                i = i + 1;
            } else if c == '#' {
                let j = find_char(&v, i + 1, '\n');
                assert(s.skip(1).skip(j - (i + 1)) =~= v@.skip(j as int));
                i = j;
            } else if c == '{' {
                tokens.push(Token::OpenBrace);
                i = i + 1;
                assert(lexemes(tokens@) =~= lexemes(before).push(Lexeme::OpenBrace));
            } else if c == '}' {
                tokens.push(Token::CloseBrace);
                i = i + 1;
                assert(lexemes(tokens@) =~= lexemes(before).push(Lexeme::CloseBrace));
            } else if c == '"' {
                let j = find_char(&v, i + 1, '"');
                let word = text_of(&v, i + 1, j);
                assert(word@ =~= s.skip(1).take(j - (i + 1)));
                assert(s.skip(1).skip(j - (i + 1)) =~= v@.skip(j as int));
                tokens.push(Token::Text(word));
                assert(lexemes(tokens@) =~= lexemes(before).push(Lexeme::Text(word@)));
                if j < n {
                    assert(v@.skip(j as int).skip(1) =~= v@.skip(j + 1));
                    i = j + 1;
                } else {
                    i = n;
                }
            } else {
                let j = find_word_end(&v, i + 1);
                let word = text_of(&v, i, j);
                assert(word@ =~= s.take(j - (i + 1) + 1));
                assert(s.skip(1).skip(j - (i + 1)) =~= v@.skip(j as int));
                tokens.push(Token::Text(word));
                assert(lexemes(tokens@) =~= lexemes(before).push(Lexeme::Text(word@)));
                i = j;
            }
        }
        assert(v@.skip(n as int).len() == 0);
        tokens
    }

    /// Reads the inside of a block from position `start` on; gives its
    /// directives and the position behind it.
    pub fn parse_block(tokens: &Vec<Token>, start: usize) -> (r: (Vec<PluginConfig>, usize))
        ensures
            directives(r.0@) == block_at(lexemes(tokens@), start as int).0,
            r.1 == block_at(lexemes(tokens@), start as int).1,
            start <= tokens@.len() ==> start <= r.1 <= tokens@.len(),
        decreases
                if start <= tokens@.len() {
                    tokens@.len() - start
                } else {
                    0
                },
    {
        let ghost t = lexemes(tokens@);
        if start >= tokens.len() {
            let none: Vec<PluginConfig> = Vec::new();
            assert(directives(none@) =~= Seq::empty());
            return (none, start);
        }
        proof {
            lemma_block_advances(t, start as int);
        }
        let mut plugins: Vec<PluginConfig> = Vec::new();
        let mut i: usize = start;
        while i < tokens.len()
            invariant
                start <= i <= tokens@.len(),
                t == lexemes(tokens@),
                directives(plugins@) + block_at(t, i as int).0 =~= block_at(t, start as int).0,
                block_at(t, i as int).1 == block_at(t, start as int).1,
                start <= block_at(t, start as int).1 <= tokens@.len(),
            decreases tokens@.len() - i,
        {
            assert(t[i as int] == tokens@[i as int]@);
            match &tokens[i] {
                Token::CloseBrace => {
                    return (plugins, i + 1);
                },
                Token::Text(name) => {
                    let ghost at = i as int;
                    let ghost before = plugins@;
                    let plugin_name = name.clone();
                    i = i + 1;
                    let mut args: Vec<String> = Vec::new();
                    let mut block: Vec<PluginConfig> = Vec::new();
                    proof {
                        lemma_args_end(t, at + 1);
                        lemma_block_advances(t, at);
                    }
                    let ghost e = args_end(t, at + 1);
                    while i < tokens.len()
                        invariant_except_break
                            at < i <= e <= tokens@.len(),
                            block@.len() == 0,
                        invariant
                            t == lexemes(tokens@),
                            start <= at < tokens@.len(),
                            e == args_end(t, at + 1),
                            at + 1 <= e <= t.len(),
                            forall|k: int| at + 1 <= k < e ==> #[trigger] t[k] is Text,
                            e < t.len() ==> !(t[e] is Text),
                            i <= e ==> text::texts(args@) =~= texts_between(t, at + 1, i as int),
                        ensures
                            text::texts(args@) == texts_between(t, at + 1, e),
                            directives(block@) == directive_at(t, at).0.block,
                            i == directive_at(t, at).1,
                        decreases tokens@.len() - i,
                    {
                        assert(t[i as int] == tokens@[i as int]@);
                        match &tokens[i] {
                            Token::Text(arg) => {
                                let ghost old_args = args@;
                                args.push(arg.clone());
                                assert(text::texts(args@) =~= text::texts(old_args).push(arg@));
                                i = i + 1;
                            },
                            Token::OpenBrace => {
                                let (sub_block, next_i) = Self::parse_block(tokens, i + 1);
                                block = sub_block;
                                i = next_i;
                                break;
                            },
                            Token::Newline | Token::CloseBrace => {
                                break;
                            },
                        }
                    }
                    let p = PluginConfig { name: plugin_name, args, block };
                    proof {
                        assert(p@.block =~= directives(p.block@));
                        assert(p@ == directive_at(t, at).0);
                    }
                    plugins.push(p);
                    assert(directives(plugins@) =~= directives(before).push(p@));
                },
                Token::Newline | Token::OpenBrace => {
                    i = i + 1;
                },
            }
        }
        (plugins, i)
    }

    /// Reads the zones of a Corefile from its tokens.
    pub fn parse_tokens(tokens: &Vec<Token>) -> (zones: Vec<RawZone>)
        ensures
            zone_texts(zones@) == zones_at(lexemes(tokens@), 0, Seq::empty()),
    {
        let ghost t = lexemes(tokens@);
        let mut i: usize = 0;
        let mut zones: Vec<RawZone> = Vec::new();
        let mut zone_names: Vec<String> = Vec::new();
        assert(text::texts(zone_names@) =~= Seq::empty());
        while i < tokens.len()
            invariant
                i <= tokens@.len(),
                t == lexemes(tokens@),
                zone_texts(zones@) + zones_at(t, i as int, text::texts(zone_names@))
                    =~= zones_at(t, 0, Seq::empty()),
            decreases tokens@.len() - i,
        {
            assert(t[i as int] == tokens@[i as int]@);
            let ghost before = zone_names@;
            match &tokens[i] {
                Token::Text(s) => {
                    zone_names.push(s.clone());
                    i = i + 1;
                    assert(text::texts(zone_names@) =~= text::texts(before).push(s@));
                },
                Token::OpenBrace => {
                    let (plugins, next_i) = Self::parse_block(tokens, i + 1);
                    let ghost old_zones = zones@;
                    let ghost made = zones_of(text::texts(zone_names@), directives(plugins@));
                    let mut k: usize = 0;
                    while k < zone_names.len()
                        invariant
                            k <= zone_names@.len(),
                            made == zones_of(text::texts(zone_names@), directives(plugins@)),
                            zone_texts(zones@) =~= zone_texts(old_zones) + made.take(k as int),
                        decreases zone_names@.len() - k,
                    {
                        let ghost prev = zones@;
                        let z = RawZone {
                            name: zone_names[k].clone(),
                            plugins: clone_configs(&plugins),
                        };
                        assert(z@ == made[k as int]);
                        zones.push(z);
                        assert(zone_texts(zones@) =~= zone_texts(prev).push(z@));
                        k = k + 1;
                    }
                    assert(made.take(k as int) =~= made);
                    zone_names = Vec::new();
                    assert(text::texts(zone_names@) =~= Seq::empty());
                    i = next_i;
                },
                Token::Newline => {
                    i = i + 1;
                    zone_names = Vec::new();
                    assert(text::texts(zone_names@) =~= Seq::empty());
                },
                Token::CloseBrace => {
                    i = i + 1;
                },
            }
        }
        zones
    }
}

/// Choosing by rank works part by part.
proof fn lemma_of_rank_append(a: Seq<Setup>, b: Seq<Setup>, rank: int)
    ensures
        of_rank(a + b, rank) == of_rank(a, rank) + of_rank(b, rank),
    decreases b.len(),
{
    if b.len() == 0 {
        assert(a + b =~= a);
        assert(of_rank(a, rank) + of_rank(b, rank) =~= of_rank(a, rank));
    } else {
        lemma_of_rank_append(a, b.drop_last(), rank);
        assert((a + b).drop_last() =~= a + b.drop_last());
        assert(of_rank(a + b, rank) =~= of_rank(a, rank) + of_rank(b, rank));
    }
}

/// Choosing by rank from what has one rank gives all of it or nothing.
proof fn lemma_of_rank_uniform(v: Seq<Setup>, has: int, rank: int)
    requires
        forall|k: int| 0 <= k < v.len() ==> (#[trigger] v[k]).rank() == has,
    ensures
        of_rank(v, rank) == if has == rank {
            v
        } else {
            Seq::empty()
        },
    decreases v.len(),
{
    if v.len() > 0 {
        assert forall|k: int| 0 <= k < v.drop_last().len() implies (
        #[trigger] v.drop_last()[k]).rank() == has by {
            assert(v.drop_last()[k] == v[k]);
        }
        lemma_of_rank_uniform(v.drop_last(), has, rank);
        assert(v.last().rank() == has);
        assert(v.drop_last().push(v.last()) =~= v);
    }
}

/// Choosing by rank from a range of ranks.
proof fn lemma_of_rank_ranked(v: Seq<Setup>, high: int, low: int, rank: int)
    ensures
        of_rank(ranked(v, high, low), rank) == if low <= rank <= high {
            of_rank(v, rank)
        } else {
            Seq::empty()
        },
    decreases high - low + 1,
{
    if low <= high {
        lemma_of_rank_ranked(v, high - 1, low, rank);
        lemma_of_rank(v, high);
        lemma_of_rank_uniform(of_rank(v, high), high, rank);
        lemma_of_rank_append(of_rank(v, high), ranked(v, high - 1, low), rank);
        if rank == high {
            assert(of_rank(ranked(v, high, low), rank) =~= of_rank(v, rank));
        } else {
            assert(of_rank(ranked(v, high, low), rank) =~= of_rank(
                ranked(v, high - 1, low),
                rank,
            ));
        }
    }
}

/// The chain runs from higher to lower ranks.
pub proof fn law_chain_is_sorted(v: Seq<Setup>, i: int, j: int)
    requires
        0 <= i < j < arranged(v).len(),
    ensures
        arranged(v)[i].rank() >= arranged(v)[j].rank(),
{
    lemma_sorted(v, u8::MAX as int, 0, i, j);
}

/// A range of ranks runs from higher to lower ones.
proof fn lemma_sorted(v: Seq<Setup>, high: int, low: int, i: int, j: int)
    requires
        0 <= i < j < ranked(v, high, low).len(),
    ensures
        ranked(v, high, low)[i].rank() >= ranked(v, high, low)[j].rank(),
    decreases high - low + 1,
{
    let a = of_rank(v, high);
    let b = ranked(v, high - 1, low);
    lemma_of_rank(v, high);
    lemma_ranked_range(v, high, low);
    if i < a.len() {
        assert(ranked(v, high, low)[i] == a[i]);
    } else {
        assert(ranked(v, high, low)[i] == b[i - a.len()]);
        assert(ranked(v, high, low)[j] == b[j - a.len()]);
        lemma_sorted(v, high - 1, low, i - a.len(), j - a.len());
    }
}

/// The chain holds, for every rank, exactly the plugins of that rank, in the
/// order in which they are written; so none is lost, none is added, and
/// plugins of one rank keep their order.
pub proof fn law_chain_is_stable(v: Seq<Setup>, rank: int)
    requires
        0 <= rank <= u8::MAX,
    ensures
        of_rank(arranged(v), rank) == of_rank(v, rank),
{
    lemma_of_rank_ranked(v, u8::MAX as int, 0, rank);
}

/// What is chosen by rank is what has that rank.
proof fn lemma_of_rank_members(v: Seq<Setup>, rank: int, s: Setup)
    ensures
        of_rank(v, rank).contains(s) <==> v.contains(s) && s.rank() == rank,
    decreases v.len(),
{
    if v.len() > 0 {
        let front = v.drop_last();
        lemma_of_rank_members(front, rank, s);
        assert(v =~= front.push(v.last()));
        assert(v[v.len() - 1] == v.last());
        if front.contains(s) {
            let k = choose|k: int| 0 <= k < front.len() && front[k] == s;
            assert(v[k] == s);
        }
        if v.contains(s) && s != v.last() {
            let k = choose|k: int| 0 <= k < v.len() && v[k] == s;
            assert(front[k] == s);
        }
        let a = of_rank(front, rank);
        if v.last().rank() == rank {
            assert(a.push(v.last())[a.len() as int] == v.last());
            if a.contains(s) {
                let k = choose|k: int| 0 <= k < a.len() && a[k] == s;
                assert(a.push(v.last())[k] == s);
            }
            if a.push(v.last()).contains(s) && s != v.last() {
                let k = choose|k: int|
                    0 <= k < a.push(v.last()).len() && #[trigger] a.push(v.last())[k] == s;
                assert(a[k] == s);
            }
        }
    }
}

/// Whether no two setups have the same rank.
pub open spec fn ranks_differ(v: Seq<Setup>) -> bool {
    forall|i: int, j: int|
        0 <= i < j < v.len() ==> (#[trigger] v[i]).rank() != (#[trigger] v[j]).rank()
}

/// Where ranks differ, at most one setup is chosen by rank.
proof fn lemma_of_rank_single(v: Seq<Setup>, rank: int)
    requires
        ranks_differ(v),
    ensures
        of_rank(v, rank).len() <= 1,
    decreases v.len(),
{
    if v.len() > 0 {
        let front = v.drop_last();
        assert(ranks_differ(front)) by {
            assert forall|i: int, j: int| 0 <= i < j < front.len() implies (
            #[trigger] front[i]).rank() != (#[trigger] front[j]).rank() by {
                assert(v[i].rank() != v[j].rank());
            }
        }
        lemma_of_rank_single(front, rank);
        if v.last().rank() == rank && of_rank(front, rank).len() > 0 {
            let s = of_rank(front, rank)[0];
            lemma_of_rank_members(front, rank, s);
            assert(of_rank(front, rank).contains(s));
            let k = choose|k: int| 0 <= k < front.len() && front[k] == s;
            assert(v[k].rank() != v[v.len() - 1].rank());
        }
    }
}

/// The chain has as many plugins as are set up.
pub proof fn law_chain_is_as_long(v: Seq<Setup>)
    ensures
        arranged(v).len() == v.len(),
    decreases v.len(),
{
    let high = u8::MAX as int;
    if v.len() == 0 {
        lemma_ranked_empty(high, 0);
        assert(v =~= Seq::empty());
    } else {
        let front = v.drop_last();
        let s = v.last();
        let r = s.rank();
        law_chain_is_as_long(front);
        assert(v =~= front.push(s));
        lemma_ranked_cut(front, high, r, 0);
        lemma_ranked_cut(v, high, r, 0);
        lemma_ranked_push(front, s, high, r);
        lemma_ranked_push(front, s, r - 1, 0);
    }
}

/// The order of the chain does not depend on the order in which plugins of
/// different ranks are written.
pub proof fn law_chain_ignores_order_of_writing(v: Seq<Setup>, w: Seq<Setup>)
    requires
        ranks_differ(v),
        ranks_differ(w),
        forall|s: Setup| v.contains(s) <==> w.contains(s),
    ensures
        arranged(v) == arranged(w),
{
    lemma_same_ranked(v, w, u8::MAX as int, 0);
}

/// Within a range of ranks the order of writing does not matter either.
proof fn lemma_same_ranked(v: Seq<Setup>, w: Seq<Setup>, high: int, low: int)
    requires
        ranks_differ(v),
        ranks_differ(w),
        forall|s: Setup| v.contains(s) <==> w.contains(s),
    ensures
        ranked(v, high, low) == ranked(w, high, low),
    decreases high - low + 1,
{
    if low <= high {
        lemma_same_ranked(v, w, high - 1, low);
        lemma_of_rank_single(v, high);
        lemma_of_rank_single(w, high);
        let a = of_rank(v, high);
        let b = of_rank(w, high);
        if a.len() > 0 {
            lemma_of_rank_members(v, high, a[0]);
            lemma_of_rank_members(w, high, a[0]);
            assert(a.contains(a[0]));
            assert(b.contains(a[0]));
        }
        if b.len() > 0 {
            lemma_of_rank_members(v, high, b[0]);
            lemma_of_rank_members(w, high, b[0]);
            assert(b.contains(b[0]));
            assert(a.contains(b[0]));
        }
        assert(a =~= b);
    }
}

/// Once a plugin for error reports was made nobody else gets to read them.
pub proof fn law_one_reader_of_errors(ds: Seq<Directive>, free: bool)
    ensures
        free_after(ds, free) <==> free && forall|k: int|
            0 <= k < ds.len() ==> (#[trigger] ds[k]).name != ErrorsPlugin::called(),
        forall|i: int, j: int|
            0 <= i < j < setups(ds, free).len() && (#[trigger] setups(ds, free)[i]).directive.name
                == ErrorsPlugin::called() ==> !(#[trigger] setups(ds, free)[j]).free,
    decreases ds.len(),
{
    if ds.len() > 0 {
        let front = ds.drop_last();
        law_one_reader_of_errors(front, free);
        lemma_setups_from(front, free);
        if free_after(ds, free) {
            assert forall|k: int| 0 <= k < ds.len() implies (#[trigger] ds[k]).name
                != ErrorsPlugin::called() by {
                if k < front.len() {
                    assert(front[k].name != ErrorsPlugin::called());
                }
            }
        } else if free && (forall|k: int|
            0 <= k < ds.len() ==> (#[trigger] ds[k]).name != ErrorsPlugin::called()) {
            assert forall|k: int| 0 <= k < front.len() implies (#[trigger] front[k]).name
                != ErrorsPlugin::called() by {
                assert(front[k] == ds[k]);
            }
            assert(ds.last() == ds[ds.len() - 1]);
        }
        let a = setups(front, free);
        let b = setups(ds, free);
        assert forall|i: int, j: int|
            0 <= i < j < b.len() && (#[trigger] b[i]).directive.name
                == ErrorsPlugin::called() implies !(#[trigger] b[j]).free by {
            assert(b[i] == a[i]);
            if j < a.len() {
                assert(b[j] == a[j]);
            }
        }
    }
}

/// Every setup comes from a directive.
proof fn lemma_setups_from(ds: Seq<Directive>, free: bool)
    ensures
        forall|i: int|
            0 <= i < setups(ds, free).len() ==> exists|k: int|
                0 <= k < ds.len() && #[trigger] ds[k] == (#[trigger] setups(
                    ds,
                    free,
                )[i]).directive,
    decreases ds.len(),
{
    if ds.len() > 0 {
        let front = ds.drop_last();
        lemma_setups_from(front, free);
        let a = setups(front, free);
        let b = setups(ds, free);
        assert forall|i: int| 0 <= i < b.len() implies exists|k: int|
            0 <= k < ds.len() && #[trigger] ds[k] == (#[trigger] b[i]).directive by {
            if i < a.len() {
                assert(b[i] == a[i]);
                let k = choose|k: int|
                    0 <= k < front.len() && #[trigger] front[k] == a[i].directive;
                assert(ds[k] == b[i].directive);
            } else {
                assert(ds[ds.len() - 1] == b[i].directive);
            }
        }
    }
}

/// No error reports are read by a later zone once an earlier zone reads them.
pub proof fn law_one_zone_reads_errors(zones: Seq<ZoneText>, free: bool, i: int, j: int)
    requires
        0 <= i < j <= zones.len(),
        !free_after_zones(zones.take(i + 1), free),
    ensures
        !free_after_zones(zones.take(j), free),
    decreases j,
{
    if j > i + 1 {
        law_one_zone_reads_errors(zones, free, i, j - 1);
        assert(zones.take(j).drop_last() =~= zones.take(j - 1));
        law_one_reader_of_errors(zones[j - 1].plugins, free_after_zones(zones.take(j - 1), free));
    }
}

/// Whether a text ends inside a quotation that it has opened.
pub open spec fn ends_in_quotation(s: Seq<char>) -> bool
    decreases s.len(),
{
    if s.len() == 0 {
        false
    } else if text::is_white_space(s[0]) || s[0] == '{' || s[0] == '}' {
        ends_in_quotation(s.skip(1))
    } else if s[0] == '#' {
        proof {
            text::lemma_span_bounds(s.skip(1), text::at_char('\n'));
        }
        ends_in_quotation(s.skip(1).skip(text::span(s.skip(1), text::at_char('\n')) as int))
    } else if s[0] == '"' {
        proof {
            text::lemma_span_bounds(s.skip(1), text::at_char('"'));
        }
        let rest = s.skip(1).skip(text::span(s.skip(1), text::at_char('"')) as int);
        if rest.len() == 0 {
            true
        } else {
            ends_in_quotation(rest.skip(1))
        }
    } else {
        proof {
            text::lemma_span_bounds(s.skip(1), ends_word());
        }
        ends_in_quotation(s.skip(1).skip(text::span(s.skip(1), ends_word()) as int))
    }
}

/// A comment is as good as nothing: wherever it stands, but inside a quotation,
/// what is between `#` and the end of the line does not matter.
pub proof fn law_comment_is_invisible(before: Seq<char>, comment: Seq<char>, rest: Seq<char>)
    requires
        !ends_in_quotation(before),
        !comment.contains('\n'),
        rest.len() == 0 || rest[0] == '\n',
    ensures
        lexed(before + seq!['#'] + comment + rest) == lexed(before + rest),
{
    let hidden = seq!['#'] + comment + rest;
    assert(before + seq!['#'] + comment + rest =~= before + hidden);
    lemma_comment_alone(comment, rest);
    lemma_comment_behind(before, comment, rest);
}

/// A comment at the start of a text does not matter.
proof fn lemma_comment_alone(comment: Seq<char>, rest: Seq<char>)
    requires
        !comment.contains('\n'),
        rest.len() == 0 || rest[0] == '\n',
    ensures
        lexed(seq!['#'] + comment + rest) == lexed(rest),
{
    let s = seq!['#'] + comment + rest;
    let tail = s.skip(1);
    assert(s[0] == '#');
    assert forall|k: int| 0 <= k < comment.len() implies !text::at_char('\n')(
        #[trigger] tail[k],
    ) by {
        assert(tail[k] == comment[k]);
    }
    if rest.len() > 0 {
        assert(tail[comment.len() as int] == rest[0]);
    }
    text::lemma_span(tail, text::at_char('\n'), comment.len() as int);
    assert(tail.skip(comment.len() as int) =~= rest);
}

/// What stops a span within a text stops it also when the text goes on.
proof fn lemma_span_within(a: Seq<char>, b: Seq<char>, stops: spec_fn(char) -> bool)
    requires
        text::span(a, stops) < a.len() || (b.len() > 0 ==> stops(b[0])),
    ensures
        text::span(a + b, stops) == text::span(a, stops),
        (a + b).skip(text::span(a, stops) as int) == a.skip(text::span(a, stops) as int) + b,
        (a + b).take(text::span(a, stops) as int) == a.take(text::span(a, stops) as int),
{
    text::lemma_span_bounds(a, stops);
    let n = text::span(a, stops) as int;
    assert forall|k: int| 0 <= k < n implies !stops(#[trigger] (a + b)[k]) by {
        assert((a + b)[k] == a[k]);
    }
    if n < a.len() {
        assert((a + b)[n] == a[n]);
    } else if b.len() > 0 {
        assert((a + b)[n] == b[0]);
    }
    text::lemma_span(a + b, stops, n);
    assert((a + b).skip(n) =~= a.skip(n) + b);
    assert((a + b).take(n) =~= a.take(n));
}

/// A comment behind any text that does not end in a quotation does not matter.
proof fn lemma_comment_behind(before: Seq<char>, comment: Seq<char>, rest: Seq<char>)
    requires
        !ends_in_quotation(before),
        !comment.contains('\n'),
        rest.len() == 0 || rest[0] == '\n',
    ensures
        lexed(before + (seq!['#'] + comment + rest)) == lexed(before + rest),
    decreases before.len(),
{
    let hidden = seq!['#'] + comment + rest;
    if before.len() == 0 {
        lemma_comment_alone(comment, rest);
        assert(before + hidden =~= hidden);
        assert(before + rest =~= rest);
    } else {
        let c = before[0];
        let tail = before.skip(1);
        assert((before + hidden)[0] == c && (before + rest)[0] == c);
        assert((before + hidden).skip(1) =~= tail + hidden);
        assert((before + rest).skip(1) =~= tail + rest);
        if text::is_white_space(c) || c == '{' || c == '}' {
            lemma_comment_behind(tail, comment, rest);
        } else if c == '#' {
            let stops = text::at_char('\n');
            let n = text::span(tail, stops) as int;
            text::lemma_span_bounds(tail, stops);
            if n < tail.len() {
                lemma_span_within(tail, hidden, stops);
                lemma_span_within(tail, rest, stops);
                lemma_comment_behind(tail.skip(n), comment, rest);
            } else {
                let one = tail + seq!['#'] + comment;
                assert forall|x: char| one.contains(x) implies x != '\n' by {
                    let k = choose|k: int| 0 <= k < one.len() && one[k] == x;
                    if k < tail.len() {
                        assert(!stops(tail[k]));
                    } else if k > tail.len() {
                        assert(one[k] == comment[k - tail.len() - 1]);
                    }
                }
                assert forall|x: char| tail.contains(x) implies x != '\n' by {
                    let k = choose|k: int| 0 <= k < tail.len() && tail[k] == x;
                    assert(!stops(tail[k]));
                }
                lemma_comment_alone(one, rest);
                lemma_comment_alone(tail, rest);
                assert(before + hidden =~= seq!['#'] + one + rest);
                assert(before + rest =~= seq!['#'] + tail + rest);
            }
        } else if c == '"' {
            let stops = text::at_char('"');
            let n = text::span(tail, stops) as int;
            text::lemma_span_bounds(tail, stops);
            assert(tail.skip(n).len() > 0);
            lemma_span_within(tail, hidden, stops);
            lemma_span_within(tail, rest, stops);
            let inner = tail.skip(n).skip(1);
            assert((tail.skip(n) + hidden).skip(1) =~= inner + hidden);
            assert((tail.skip(n) + rest).skip(1) =~= inner + rest);
            lemma_comment_behind(inner, comment, rest);
        } else {
            let stops = ends_word();
            let n = text::span(tail, stops) as int;
            text::lemma_span_bounds(tail, stops);
            assert(hidden[0] == '#');
            lemma_span_within(tail, hidden, stops);
            lemma_span_within(tail, rest, stops);
            assert((before + hidden).take(n + 1) =~= (before + rest).take(n + 1));
            lemma_comment_behind(tail.skip(n), comment, rest);
        }
    }
}

/// Blanks between tokens do not matter.
pub proof fn law_blank_is_invisible(c: char, rest: Seq<char>)
    requires
        text::is_white_space(c),
        c != '\n',
    ensures
        lexed(seq![c] + rest) == lexed(rest),
{
    assert((seq![c] + rest).skip(1) =~= rest);
}

/// Names in front of the same block get zones that say the same.
pub proof fn law_names_share_a_block(names: Seq<Seq<char>>, plugins: Seq<Directive>, i: int)
    requires
        0 <= i < names.len(),
    ensures
        zones_of(names, plugins).len() == names.len(),
        zones_of(names, plugins)[i].name == names[i],
        zones_of(names, plugins)[i].plugins == plugins,
{
}

/// A text in double quotes is one token, whatever it holds.
pub proof fn law_quoted_text_is_one_token(quoted: Seq<char>, rest: Seq<char>)
    requires
        !quoted.contains('"'),
    ensures
        lexed(seq!['"'] + quoted + seq!['"'] + rest) == seq![Lexeme::Text(quoted)] + lexed(rest),
{
    let s = seq!['"'] + quoted + seq!['"'] + rest;
    let tail = s.skip(1);
    let n = quoted.len() as int;
    assert(s[0] == '"');
    assert forall|k: int| 0 <= k < n implies !text::at_char('"')(#[trigger] tail[k]) by {
        assert(tail[k] == quoted[k]);
    }
    assert(tail[n] == '"');
    text::lemma_span(tail, text::at_char('"'), n);
    assert(tail.take(n) =~= quoted);
    assert(tail.skip(n).skip(1) =~= rest);
}

/// However a zone is written, a cache stands in front of every plugin that
/// forwards, so that a kept answer spares the servers.
pub proof fn law_cache_comes_before_forward(v: Seq<Setup>, i: int, j: int)
    requires
        0 <= i < arranged(v).len(),
        0 <= j < arranged(v).len(),
        arranged(v)[i].directive.name == CachePlugin::called(),
        arranged(v)[j].directive.name == ForwardPlugin::called(),
    ensures
        i < j,
{
    reveal_strlit("cache");
    reveal_strlit("forward");
    assert(CachePlugin::called()[0] == 'c');
    assert(ForwardPlugin::called()[0] == 'f');
    assert(arranged(v)[i].rank() == 120);
    assert(arranged(v)[j].rank() == 100);
    if j < i {
        law_chain_is_sorted(v, j, i);
    }
}

} // verus!
