//! The rule set and the token stream that scans a text against it.
//!
//! At each position the stream tries the longest remaining candidate first
//! and shortens it one character at a time; for each candidate the rules are
//! tried in the order they were registered. The first (longest candidate,
//! earliest rule) match produces the next token.

use vstd::prelude::*;
use crate::pattern::{anchored, regex_compiles, regex_is_match, Pattern, PatternError};

verus! {

/// Turns the text matched by a rule into a token.
///
/// The conversion is a function of the text: `spec_convert` states which
/// token (as seen through its view) `convert` returns.
pub trait Converter {
    type Token: View;

    spec fn spec_convert(&self, text: Seq<char>) -> <Self::Token as View>::V;

    fn convert(&self, text: &str) -> (r: Self::Token)
        requires
            text@.len() > 0,
        ensures
            r@ == self.spec_convert(text@),
    ;
}

/// The scan found no rule that matches any candidate at the current
/// position.
#[derive(Clone, Copy, Debug, PartialEq, Eq)]
pub struct LexError;

/// One registered rule: an anchored pattern and the converter applied to
/// what it matches.
pub struct Rule<C> {
    pub pattern: Pattern,
    pub on_found: C,
}

/// An ordered set of rules; earlier rules take precedence on equal-length
/// matches.
pub struct Parser<C> {
    elements: Vec<Rule<C>>,
}

impl<C> View for Parser<C> {
    type V = Seq<Rule<C>>;

    closed spec fn view(&self) -> Seq<Rule<C>> {
        self.elements@
    }
}

/// Rule `k` matches all of `text`.
pub open spec fn rule_matches<C>(rules: Seq<Rule<C>>, k: int, text: Seq<char>) -> bool {
    regex_is_match(rules[k].pattern@, text)
}

/// Some rule matches all of `text`.
pub open spec fn some_rule_matches<C>(rules: Seq<Rule<C>>, text: Seq<char>) -> bool {
    exists|k: int| 0 <= k < rules.len() && #[trigger] rule_matches(rules, k, text)
}

/// Rule `k` matches all of `text` and no earlier rule does.
pub open spec fn is_first_rule<C>(rules: Seq<Rule<C>>, text: Seq<char>, k: int) -> bool {
    &&& 0 <= k < rules.len()
    &&& rule_matches(rules, k, text)
    &&& forall|j: int| 0 <= j < k ==> !#[trigger] rule_matches(rules, j, text)
}

/// The candidate `s[pos..e]` is non-empty and matched by some rule.
pub open spec fn is_match_end<C>(rules: Seq<Rule<C>>, s: Seq<char>, pos: int, e: int) -> bool {
    &&& pos < e <= s.len()
    &&& some_rule_matches(rules, s.subrange(pos, e))
}

/// `s[pos..e]` is the longest candidate at `pos` that some rule matches.
pub open spec fn is_longest_end<C>(rules: Seq<Rule<C>>, s: Seq<char>, pos: int, e: int) -> bool {
    &&& is_match_end(rules, s, pos, e)
    &&& forall|f: int| e < f <= s.len() ==> !#[trigger] is_match_end(rules, s, pos, f)
}

/// The token that the scan takes at `pos`: the end of the longest matched
/// candidate and the first rule that matches it, or `None` when no rule
/// matches any candidate.
pub open spec fn next_token<C>(rules: Seq<Rule<C>>, s: Seq<char>, pos: int) -> Option<(int, int)> {
    if exists|e: int| is_longest_end(rules, s, pos, e) {
        let e = choose|e: int| is_longest_end(rules, s, pos, e);
        Some((e, choose|k: int| is_first_rule(rules, s.subrange(pos, e), k)))
    } else {
        None
    }
}

/// A stream item as seen through the token's view.
pub open spec fn item_view<T: View>(x: Result<T, LexError>) -> Result<T::V, LexError> {
    match x {
        Ok(t) => Ok(t@),
        Err(e) => Err(e),
    }
}

/// A sequence of stream items as seen through the token's view.
pub open spec fn items_view<T: View>(items: Seq<Result<T, LexError>>) -> Seq<Result<T::V, LexError>> {
    items.map_values(|x: Result<T, LexError>| item_view(x))
}

/// Every item that a full scan of `s` from `pos` yields.
pub open spec fn tokens<C: Converter>(rules: Seq<Rule<C>>, s: Seq<char>, pos: int) -> Seq<
    Result<<C::Token as View>::V, LexError>,
>
    decreases s.len() - pos,
{
    if 0 <= pos < s.len() {
        match next_token(rules, s, pos) {
            Some((e, k)) => seq![Ok(rules[k].on_found.spec_convert(s.subrange(pos, e)))] + tokens(
                rules,
                s,
                e,
            ),
            None => seq![Err(LexError)],
        }
    } else {
        seq![]
    }
}

/// The texts that a scan from `pos` turns into tokens, in order, each with
/// the index of the rule that matched it.
pub open spec fn matched<C>(rules: Seq<Rule<C>>, s: Seq<char>, pos: int) -> Seq<(Seq<char>, int)>
    decreases s.len() - pos,
{
    if 0 <= pos < s.len() {
        match next_token(rules, s, pos) {
            Some((e, k)) => seq![(s.subrange(pos, e), k)] + matched(rules, s, e),
            None => seq![],
        }
    } else {
        seq![]
    }
}

/// Where a scan from `pos` stops: the end of the text, or the position at
/// which no rule matched.
pub open spec fn scan_end<C>(rules: Seq<Rule<C>>, s: Seq<char>, pos: int) -> int
    decreases s.len() - pos,
{
    if 0 <= pos < s.len() {
        match next_token(rules, s, pos) {
            Some((e, _)) => scan_end(rules, s, e),
            None => pos,
        }
    } else {
        pos
    }
}

/// `rules` is `before` with one rule appended: the pattern `body`,
/// anchored, and the converter `on_found`.
pub open spec fn appended<C>(rules: Seq<Rule<C>>, before: Seq<Rule<C>>, body: Seq<char>, on_found: C) -> bool {
    &&& rules.len() == before.len() + 1
    &&& rules.subrange(0, before.len() as int) == before
    &&& rules.last().pattern@ == anchored(body)
    &&& rules.last().on_found == on_found
}

impl<C: Converter> Parser<C> {
    /// An empty rule set.
    pub fn new() -> (r: Parser<C>)
        ensures
            r@ == Seq::<Rule<C>>::empty(),
    {
        Parser { elements: Vec::new() }
    }

    /// Appends a rule whose pattern `reg` must match a whole candidate.
    /// The pattern must compile: an invalid one is a configuration error.
    pub fn push(self, reg: &str, on_found: C) -> (r: Parser<C>)
        requires
            regex_compiles(anchored(reg@)),
        ensures
            appended(r@, self@, reg@, on_found),
    {
        let mut parser = self;
        match Pattern::new(reg) {
            Ok(pattern) => {
                parser.elements.push(Rule { pattern, on_found });
                proof {
                    assert(parser.elements@.subrange(0, self@.len() as int) =~= self@);
                }
                parser
            },
            Err(_) => {
                proof {
                    assert(false);
                }
                parser
            },
        }
    }

    /// Appends a rule as `push` does, or reports why its pattern does not
    /// compile. The pattern is compiled once to test it, and once more by
    /// `push`.
    pub fn try_push(self, reg: &str, on_found: C) -> (r: Result<Parser<C>, PatternError>)
        ensures
            r is Ok <==> regex_compiles(anchored(reg@)),
            r matches Ok(p) ==> appended(p@, self@, reg@, on_found),
    {
        match Pattern::new(reg) {
            Ok(_) => Ok(self.push(reg, on_found)),
            Err(e) => Err(e),
        }
    }

    /// Every item of a full scan of `content`: the tokens in order, ending
    /// with the failure item if the scan stops short of the end.
    pub fn parse_all(&self, content: &str) -> (r: Vec<Result<C::Token, LexError>>)
        ensures
            items_view(r@) == tokens(self@, content@, 0),
    {
        let mut it = self.parse(content);
        let mut out: Vec<Result<C::Token, LexError>> = Vec::new();
        loop
            invariant
                it.wf(),
                it.rules() == self@,
                it.content() == content@,
                items_view(out@) + remaining(&it) == tokens(
                    self@,
                    content@,
                    0,
                ),
            ensures
                items_view(out@) == tokens(self@, content@, 0),
            decreases it.content().len() - it.pos() + if it.failed() {
                0int
            } else {
                1int
            },
        {
            let ghost before = out@;
            match it.next() {
                Some(x) => {
                    out.push(x);
                    proof {
                        assert(items_view(out@)
                            =~= items_view(before).push(item_view(x)));
                    }
                },
                None => {
                    proof {
                        assert(remaining(&it) =~= seq![]);
                        assert(items_view(before) + remaining(&it)
                            =~= items_view(before));
                    }
                    break;
                },
            }
        }
        out
    }

    /// A token stream over `content`, positioned at its start.
    pub fn parse<'a>(&'a self, content: &'a str) -> (r: ParserIter<'a, C>)
        ensures
            r.wf(),
            r.rules() == self@,
            r.content() == content@,
            r.pos() == 0,
            0 <= r.pos() <= r.content().len(),
            !r.failed(),
    {
        ParserIter { parser: self, content, len: content.unicode_len(), pos: 0, failed: false }
    }
}

/// A lazy scan of one text against a rule set. Positions count characters.
pub struct ParserIter<'a, C> {
    parser: &'a Parser<C>,
    content: &'a str,
    len: usize,
    pos: usize,
    failed: bool,
}

/// What a stream has still to yield.
pub open spec fn remaining<'a, C: Converter>(it: &ParserIter<'a, C>) -> Seq<
    Result<<C::Token as View>::V, LexError>,
> {
    if it.failed() {
        seq![]
    } else {
        tokens(it.rules(), it.content(), it.pos())
    }
}

impl<'a, C: Converter> ParserIter<'a, C> {
    /// The rules the stream scans with.
    pub closed spec fn rules(&self) -> Seq<Rule<C>> {
        self.parser@
    }

    /// The text being scanned.
    pub closed spec fn content(&self) -> Seq<char> {
        self.content@
    }

    /// How many characters have been consumed.
    pub closed spec fn pos(&self) -> int {
        self.pos as int
    }

    /// Whether the stream has yielded its failure item.
    pub closed spec fn failed(&self) -> bool {
        self.failed
    }

    /// The stream's cached length is the text's, its position lies within
    /// the text, and a failed stream stands where no token can be taken.
    pub closed spec fn wf(&self) -> bool {
        &&& self.len == self.content@.len()
        &&& self.pos <= self.len
        &&& self.failed ==> next_token(self.parser@, self.content@, self.pos as int) is None
    }

    /// The stream yields nothing more.
    pub open spec fn is_done(&self) -> bool {
        self.failed() || self.pos() == self.content().len()
    }

    /// The next item: the token at the current position, one failure item
    /// when nothing matches there, or `None` once the text is consumed or a
    /// failure has been yielded.
    pub fn next(&mut self) -> (r: Option<Result<C::Token, LexError>>)
        requires
            old(self).wf(),
        ensures
            final(self).wf(),
            final(self).rules() == old(self).rules(),
            final(self).content() == old(self).content(),
            0 <= final(self).pos() <= final(self).content().len(),
            final(self).failed() ==> next_token(final(self).rules(), final(self).content(), final(self).pos()) is None,
            old(self).is_done() ==> r is None && final(self).pos() == old(self).pos()
                && final(self).failed() == old(self).failed(),
            !old(self).is_done() ==> match next_token(old(self).rules(), old(self).content(), old(self).pos()) {
                Some((e, k)) => {
                    &&& r matches Some(Ok(t))
                    &&& t@ == old(self).rules()[k].on_found.spec_convert(
                        old(self).content().subrange(old(self).pos(), e),
                    )
                    &&& final(self).pos() == e
                    &&& !final(self).failed()
                },
                None => {
                    &&& r == Some(Err::<C::Token, LexError>(LexError))
                    &&& final(self).pos() == old(self).pos()
                    &&& final(self).failed()
                },
            },
    {
        if self.failed || self.pos == self.len {
            return None;
        }
        let pos = self.pos;
        let ghost rules = self.rules();
        let ghost s = self.content();
        let mut end = self.len;
        while end > pos
            invariant
                pos < self.len,
                pos <= end <= self.len,
                self.wf(),
                !self.failed,
                self.pos == pos,
                rules == self.rules(),
                s == self.content(),
                rules == old(self).rules(),
                s == old(self).content(),
                pos == old(self).pos(),
                !old(self).is_done(),
                forall|f: int| end < f <= s.len() ==> !#[trigger] is_match_end(rules, s, pos as int, f),
            decreases end,
        {
            let candidate = self.content.substring_char(pos, end);
            let n = self.parser.elements.len();
            let mut k: usize = 0;
            while k < n
                invariant
                    n == rules.len(),
                    pos < end <= self.len,
                    self.wf(),
                    !self.failed,
                    self.pos == pos,
                    rules == self.rules(),
                    s == self.content(),
                    rules == old(self).rules(),
                    s == old(self).content(),
                    pos == old(self).pos(),
                    !old(self).is_done(),
                    candidate@ == s.subrange(pos as int, end as int),
                    forall|f: int| end < f <= s.len() ==> !#[trigger] is_match_end(rules, s, pos as int, f),
                    k <= n,
                    forall|j: int| 0 <= j < k ==> !#[trigger] rule_matches(rules, j, candidate@),
                decreases n - k,
            {
                let rule = &self.parser.elements[k];
                if rule.pattern.matches(candidate) {
                    let token = rule.on_found.convert(candidate);
                    proof {
                        assert(is_first_rule(rules, candidate@, k as int));
                        assert(is_longest_end(rules, s, pos as int, end as int));
                    }
                    self.pos = end;
                    return Some(Ok(token));
                }
                k += 1;
            }
            proof {
                assert(!some_rule_matches(rules, candidate@));
            }
            end -= 1;
        }
        self.failed = true;
        Some(Err(LexError))
    }
}

} // verus!
