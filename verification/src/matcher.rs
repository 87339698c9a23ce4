//! The route matcher: decides whether a path fits a route template and, if
//! it does, which values its named parameters take.

pub mod lexer;

use vstd::prelude::*;
use vstd::hash_map::StringHashMap;
use crate::matcher::lexer::{
    lemma_next_pos, lemma_tokens_from, normalize, tokens, tokens_from, Lexer, Token, TokenView,
};
use crate::text::map_view;

verus! {

/// Whether a template token accepts the path token that came with it.
pub open spec fn reconciles(route: TokenView, sym: TokenView) -> bool {
    match (route, sym) {
        (TokenView::Param(_), TokenView::Path(_)) => true,
        (TokenView::Path(a), TokenView::Path(b)) => a == b,
        (TokenView::Slash, TokenView::Slash) => true,
        (TokenView::End, TokenView::End) => true,
        _ => false,
    }
}

/// The parameters that the template tokens `route` capture from the path
/// tokens `sym`, pair by pair; where a name comes twice, the later capture
/// stands.
pub open spec fn bindings(route: Seq<TokenView>, sym: Seq<TokenView>) -> Map<Seq<char>, Seq<char>>
    decreases route.len(),
{
    if route.len() == 0 || sym.len() == 0 {
        Map::empty()
    } else {
        let before = bindings(route.drop_last(), sym.drop_last());
        match (route.last(), sym.last()) {
            (TokenView::Param(name), TokenView::Path(value)) => before.insert(name, value),
            _ => before,
        }
    }
}

/// The outcome of matching `path` against `template`.
///
/// A path equal to the template matches with no binding. Otherwise both are
/// tokenized, and the path matches if the two token sequences are equally
/// long and reconcile pair by pair.
pub open spec fn match_path(template: Seq<char>, path: Seq<char>) -> Option<
    Map<Seq<char>, Seq<char>>,
> {
    let route = tokens(normalize(template));
    let sym = tokens(normalize(path));
    if template == path {
        Some(Map::empty())
    } else if route.len() == sym.len() && forall|i: int|
        0 <= i < route.len() ==> reconciles(#[trigger] route[i], sym[i]) {
        Some(bindings(route, sym))
    } else {
        None
    }
}

/// What a match returned, as contracts see it.
pub open spec fn found_view(found: Option<StringHashMap<String>>) -> Option<
    Map<Seq<char>, Seq<char>>,
> {
    match found {
        Some(m) => Some(map_view(m)),
        None => None,
    }
}

/// One route template, ready to be matched against paths.
#[derive(Debug, Clone)]
pub struct RouteMatcher {
    path: String,
}

impl View for RouteMatcher {
    type V = Seq<char>;

    closed spec fn view(&self) -> Seq<char> {
        self.path@
    }
}

impl RouteMatcher {
    /// A matcher for the template `input`.
    pub fn new(input: &str) -> (matcher: Self)
        ensures
            matcher@ == input@,
    {
        Self { path: input.to_owned() }
    }

    /// Matches `input` against the template: the parameter binding if it
    /// fits, `None` if it does not.
    pub fn matches(&self, input: &str) -> (found: Option<StringHashMap<String>>)
        ensures
            found_view(found) == match_path(self@, input@),
    {
        if self.straight_match(input) {
            let map = StringHashMap::<String>::new();
            assert(map_view(map) =~= Map::empty());
            return Some(map);
        }
        let mut route_lexer = Lexer::new(self.path.as_str());
        let mut sym_lexer = Lexer::new(input);
        let mut map = StringHashMap::<String>::new();
        let ghost tn = normalize(self@);
        let ghost pn = normalize(input@);
        let ghost route = tokens(tn);
        let ghost sym = tokens(pn);
        let ghost mut k: int = 0;
        proof {
            lemma_tokens_from(tn, 0);
            lemma_tokens_from(pn, 0);
            assert(route.skip(0) =~= route);
            assert(sym.skip(0) =~= sym);
            assert(map_view(map) =~= Map::empty());
            assert(route.take(0).len() == 0);
        }
        loop
            invariant
                self@ != input@,
                tn == normalize(self@),
                pn == normalize(input@),
                route == tokens(tn),
                sym == tokens(pn),
                route_lexer.wf(),
                sym_lexer.wf(),
                route_lexer@.input == tn,
                sym_lexer@.input == pn,
                0 <= route_lexer@.pos <= tn.len(),
                0 <= sym_lexer@.pos <= pn.len(),
                0 <= k < route.len(),
                k < sym.len(),
                route.skip(k) == tokens_from(tn, route_lexer@.pos),
                sym.skip(k) == tokens_from(pn, sym_lexer@.pos),
                forall|i: int| 0 <= i < k ==> reconciles(#[trigger] route[i], sym[i]),
                map_view(map) == bindings(route.take(k), sym.take(k)),
            decreases tn.len() - route_lexer@.pos,
        {
            let ghost route_pos = route_lexer@.pos;
            let ghost sym_pos = sym_lexer@.pos;
            let ghost before = map_view(map);
            let sym_t = sym_lexer.next_token();
            let route_t = route_lexer.next_token();
            proof {
                lemma_next_pos(tn, route_pos);
                lemma_next_pos(pn, sym_pos);
                lemma_tokens_from(tn, route_lexer@.pos);
                lemma_tokens_from(pn, sym_lexer@.pos);
                assert(route[k] == route.skip(k)[0]);
                assert(sym[k] == sym.skip(k)[0]);
                assert(route[k] == route_t@);
                assert(sym[k] == sym_t@);
                assert(route.take(k + 1).drop_last() =~= route.take(k));
                assert(sym.take(k + 1).drop_last() =~= sym.take(k));
                assert(route.take(k + 1).last() == route[k]);
                assert(sym.take(k + 1).last() == sym[k]);
                if !(route_t@ is End) {
                    assert(route.skip(k + 1) =~= route.skip(k).skip(1));
                    assert(route.skip(k + 1) =~= tokens_from(tn, route_lexer@.pos));
                }
                if !(sym_t@ is End) {
                    assert(sym.skip(k + 1) =~= sym.skip(k).skip(1));
                    assert(sym.skip(k + 1) =~= tokens_from(pn, sym_lexer@.pos));
                }
            }
            match (route_t, sym_t) {
                (Token::Param(name), Token::Path(value)) => {
                    let ghost name_view = name@;
                    let ghost value_view = value@;
                    map.insert(name, value);
                    proof {
                        assert(map_view(map) =~= before.insert(name_view, value_view));
                    }
                },
                (Token::Path(route_text), Token::Path(sym_text)) => {
                    if !(route_text == sym_text) {
                        return None;
                    }
                },
                (Token::Slash, Token::Slash) => {},
                (Token::End, Token::End) => {
                    proof {
                        assert(route.len() == k + 1);
                        assert(sym.len() == k + 1);
                        assert(route.drop_last() =~= route.take(k));
                        assert(sym.drop_last() =~= sym.take(k));
                    }
                    return Some(map);
                },
                _ => {
                    return None;
                },
            }
            proof {
                k = k + 1;
            }
        }
    }

    /// Whether `input` is the template itself, character for character.
    fn straight_match(&self, input: &str) -> (same: bool)
        ensures
            same == (input@ == self@),
    {
        input.eq(self.path.as_str())
    }
}

} // verus!
