//! Iterators that can look one item ahead, a driver for precedence-climbing
//! parsers over them, and the joining of results that may each have failed.
use vstd::prelude::*;

verus! {

/// An iterator that can look at its next item without taking it.
pub trait PeekableIterator {
    type Item;

    /// The next item, left in place.
    fn peek(&self) -> Option<&Self::Item>;

    /// The next item, taken.
    fn next(&mut self) -> Option<Self::Item>;
}

/// The items of a list, handed out from the front, with a look at the next
/// one.
#[derive(Debug)]
pub struct TokenIter<T> {
    /// The items still to come, the next one last.
    reversed: Vec<T>,
}

impl<T> View for TokenIter<T> {
    type V = Seq<T>;

    /// The items still to come, in order.
    closed spec fn view(&self) -> Seq<T> {
        self.reversed@.reverse()
    }
}

impl<T> TokenIter<T> {
    /// An iterator over `items`, in order.
    pub fn new(items: Vec<T>) -> (iter: Self)
        ensures
            iter@ == items@,
    {
        let mut items = items;
        let mut reversed: Vec<T> = Vec::new();
        let ghost all = items@;
        while items.len() > 0
            invariant
                all == items@ + reversed@.reverse(),
            decreases items@.len(),
        {
            let ghost before = items@;
            let item = items.pop().unwrap();
            let ghost rest = reversed@;
            reversed.push(item);
            proof {
                assert(reversed@.reverse() =~= seq![item] + rest.reverse());
                assert(before =~= items@.push(item));
                assert(all =~= items@ + reversed@.reverse());
            }
        }
        proof {
            assert(all =~= reversed@.reverse());
        }
        TokenIter { reversed }
    }

    /// The next item, left in place.
    pub fn peek(&self) -> (item: Option<&T>)
        ensures
            match item {
                Some(x) => self@.len() > 0 && *x == self@[0],
                None => self@.len() == 0,
            },
    {
        let n = self.reversed.len();
        if n == 0 {
            None
        } else {
            Some(&self.reversed[n - 1])
        }
    }

    /// The next item, taken.
    pub fn next(&mut self) -> (item: Option<T>)
        ensures
            match item {
                Some(x) => old(self)@.len() > 0 && x == old(self)@[0] && final(self)@ == old(
                    self,
                )@.drop_first(),
                None => old(self)@.len() == 0 && final(self)@ == old(self)@,
            },
    {
        let ghost before = self.reversed@;
        let item = self.reversed.pop();
        proof {
            if item is Some {
                assert(before.reverse().drop_first() =~= self.reversed@.reverse());
            }
        }
        item
    }

    /// The number of items still to come.
    pub fn len(&self) -> (len: usize)
        ensures
            len == self@.len(),
    {
        self.reversed.len()
    }
}

impl<T> PeekableIterator for TokenIter<T> {
    type Item = T;

    fn peek(&self) -> Option<&T> {
        TokenIter::peek(self)
    }

    fn next(&mut self) -> Option<T> {
        TokenIter::next(self)
    }
}

/// A parser by precedence climbing: a prefix parse, then infix operators as
/// long as they bind tighter than the precedence asked for.
pub trait ParserIter: Sized {
    type Item;
    type Ast;
    type Kind;

    /// What `prefix_parse` makes of `tokens`: the node, and the tokens left.
    spec fn spec_prefix_parse(&self, tokens: Seq<Self::Item>, kind: Self::Kind) -> (
        Self::Ast,
        Seq<Self::Item>,
    );

    /// What `infix_parse` makes of `tokens` after the operator `infix` with
    /// the left operand `left_node`: the node, and the tokens left.
    spec fn spec_infix_parse(
        &self,
        tokens: Seq<Self::Item>,
        left_node: Self::Ast,
        infix: Self::Item,
        kind: Self::Kind,
    ) -> (Self::Ast, Seq<Self::Item>);

    /// The infix precedence of a token, if it is an infix operator.
    spec fn spec_infix_precedence(token: Self::Item, kind: Self::Kind) -> Option<u32>;

    /// Parses an operand or a prefix construct; it may take tokens, never add
    /// any.
    fn prefix_parse(&self, tokens: &mut TokenIter<Self::Item>, kind: &Self::Kind) -> (node:
        Self::Ast)
        ensures
            final(tokens)@.len() <= old(tokens)@.len(),
            (node, final(tokens)@) == self.spec_prefix_parse(old(tokens)@, *kind),
    ;

    /// Parses what follows the infix operator `infix` given its left
    /// operand.
    fn infix_parse(
        &self,
        tokens: &mut TokenIter<Self::Item>,
        left_node: Self::Ast,
        infix: Self::Item,
        kind: &Self::Kind,
    ) -> (node: Self::Ast)
        ensures
            final(tokens)@.len() <= old(tokens)@.len(),
            (node, final(tokens)@) == self.spec_infix_parse(old(tokens)@, left_node, infix, *kind),
    ;

    /// The infix precedence of a token, if it is an infix operator.
    fn infix_precedence(token: &Self::Item, kind: &Self::Kind) -> (precedence: Option<u32>)
        ensures
            precedence == Self::spec_infix_precedence(*token, *kind),
    ;

}

/// Precedence climbing from the operand `node` over `tokens`: while the
/// next token is an infix operator binding tighter than `precedence`, it
/// and what follows it are parsed into a new operand. Gives the operand and
/// the tokens left.
pub open spec fn climb<P: ParserIter>(
    parser: P,
    node: P::Ast,
    tokens: Seq<P::Item>,
    precedence: u32,
    kind: P::Kind,
) -> (P::Ast, Seq<P::Item>)
    decreases tokens.len(),
{
    if tokens.len() == 0 {
        (node, tokens)
    } else {
        match P::spec_infix_precedence(tokens[0], kind) {
            Some(q) => if q > precedence {
                let (next, rest) = parser.spec_infix_parse(tokens.drop_first(), node, tokens[0], kind);
                if rest.len() < tokens.len() {
                    climb(parser, next, rest, precedence, kind)
                } else {
                    (next, rest)
                }
            } else {
                (node, tokens)
            },
            None => (node, tokens),
        }
    }
}

/// What `partial_parse` makes of `tokens`: a prefix parse, then precedence
/// climbing from it.
pub open spec fn partial_parse_of<P: ParserIter>(
    parser: P,
    tokens: Seq<P::Item>,
    precedence: u32,
    kind: P::Kind,
) -> (P::Ast, Seq<P::Item>) {
    let (node, rest) = parser.spec_prefix_parse(tokens, kind);
    climb(parser, node, rest, precedence, kind)
}

/// Precedence climbing over a parser's own prefix and infix parses.
pub trait PartialParse: ParserIter {
    /// Parses an operand of an operator of the given precedence: a prefix
    /// parse, extended by each following infix operator that binds tighter.
    /// It stops before the first token that does not.
    fn partial_parse(&self, tokens: &mut TokenIter<Self::Item>, precedence: u32, kind: &Self::Kind) -> (node:
        Self::Ast)
        ensures
            final(tokens)@.len() <= old(tokens)@.len(),
            (node, final(tokens)@) == partial_parse_of(*self, old(tokens)@, precedence, *kind),
    {
        let ghost target = partial_parse_of(*self, tokens@, precedence, *kind);
        let mut node = self.prefix_parse(tokens, kind);
        loop
            invariant
                tokens@.len() <= old(tokens)@.len(),
                climb(*self, node, tokens@, precedence, *kind) == target,
                target == partial_parse_of(*self, old(tokens)@, precedence, *kind),
            decreases tokens@.len(),
        {
            let stop = match tokens.peek() {
                None => true,
                Some(token) => match Self::infix_precedence(token, kind) {
                    Some(p) => p <= precedence,
                    None => true,
                },
            };
            if stop {
                proof {
                    if tokens@.len() > 0 {
                        assert(Self::spec_infix_precedence(tokens@[0], *kind) matches Some(q)
                            ==> q <= precedence);
                    }
                    assert(climb(*self, node, tokens@, precedence, *kind) == (node, tokens@));
                }
                return node;
            }
            let ghost before = tokens@;
            let ghost left = node;
            match tokens.next() {
                Some(infix) => {
                    node = self.infix_parse(tokens, node, infix, kind);
                    proof {
                        assert(before.len() > 0 && infix == before[0]);
                        assert(climb(*self, left, before, precedence, *kind) == climb(
                            *self,
                            node,
                            tokens@,
                            precedence,
                            *kind,
                        ));
                    }
                },
                None => {
                    return node;
                },
            }
        }
    }
}

impl<P: ParserIter> PartialParse for P {}

/// Both values when both are there; else the errors of both sides, the
/// left ones first.
pub fn aggregate_error<T, U, A>(left: Result<T, Vec<A>>, right: Result<U, Vec<A>>) -> (joined:
    Result<(T, U), Vec<A>>)
    ensures
        match (left, right) {
            (Ok(l), Ok(r)) => joined == Ok::<(T, U), Vec<A>>((l, r)),
            (Err(l), Err(r)) => joined matches Err(e) && e@ == l@ + r@,
            (Err(l), Ok(_)) => joined == Err::<(T, U), Vec<A>>(l),
            (Ok(_), Err(r)) => joined == Err::<(T, U), Vec<A>>(r),
        },
{
    match (left, right) {
        (Ok(left), Ok(right)) => Ok((left, right)),
        (Err(left), Err(right)) => {
            let mut left = left;
            let mut right = right;
            left.append(&mut right);
            Err(left)
        },
        (Err(err), Ok(_)) => Err(err),
        (Ok(_), Err(err)) => Err(err),
    }
}

} // verus!
