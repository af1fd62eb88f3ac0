use butter::parser::{aggregate_error, ParserIter, PartialParse, PeekableIterator, TokenIter};
use butter::tree_vec::{Tree, TreeVec};
use vstd::seq::Seq;

#[derive(PartialEq, Eq, Clone, Copy, Debug)]
enum Node {
    Num,
    Prefix,
    InfixLeft,
    InfixRight,
}

#[derive(PartialEq, Eq, Clone, Copy, Debug)]
enum Token {
    Num,
    OpenGroup,
    CloseGroup,
    Prefix,
    InfixLeft,
    InfixRight,
}

struct Parser;

fn join(trees: Vec<Tree<Node>>) -> TreeVec<Node> {
    let mut tree_vec = TreeVec::new();
    for tree in trees {
        tree_vec.push(tree);
    }
    tree_vec
}

impl ParserIter for Parser {
    type Item = Token;
    type Ast = Option<Tree<Node>>;
    type Kind = ();

    fn prefix_parse(&self, tokens: &mut TokenIter<Token>, _kind: &()) -> Option<Tree<Node>> {
        match *tokens.peek()? {
            Token::Num => {
                tokens.next();
                Some(Tree::new(Node::Num))
            }
            Token::OpenGroup => {
                tokens.next();
                let inside = self.partial_parse(tokens, 0, &());
                if let Token::CloseGroup = *tokens.peek()? {
                    inside
                } else {
                    None
                }
            }
            Token::Prefix => {
                tokens.next();
                let operand = self.partial_parse(tokens, 30, &())?;
                Some(Tree::with_children(Node::Prefix, join(vec![operand])))
            }
            _ => None,
        }
    }

    fn infix_parse(
        &self,
        tokens: &mut TokenIter<Token>,
        left_node: Option<Tree<Node>>,
        infix: Token,
        _kind: &(),
    ) -> Option<Tree<Node>> {
        let (content, precedence) = match infix {
            Token::InfixLeft => (Node::InfixLeft, 10),
            Token::InfixRight => (Node::InfixRight, 19),
            _ => unreachable!(),
        };
        let right = self.partial_parse(tokens, precedence, &())?;
        Some(Tree::with_children(content, join(vec![left_node?, right])))
    }

    fn infix_precedence(infix: &Token, _kind: &()) -> Option<u32> {
        Some(match infix {
            Token::InfixLeft => 10,
            Token::InfixRight => 20,
            _ => return None,
        })
    }

    // The spec functions are only read by the verifier; compiled code never
    // calls them.
    fn spec_prefix_parse(&self, _tokens: Seq<Token>, _kind: ()) -> (Option<Tree<Node>>, Seq<Token>) {
        unreachable!()
    }

    fn spec_infix_parse(
        &self,
        _tokens: Seq<Token>,
        _left_node: Option<Tree<Node>>,
        _infix: Token,
        _kind: (),
    ) -> (Option<Tree<Node>>, Seq<Token>) {
        unreachable!()
    }

    fn spec_infix_precedence(_token: Token, _kind: ()) -> Option<u32> {
        unreachable!()
    }
}

fn parse(tokens: Vec<Token>) -> Option<Tree<Node>> {
    Parser.partial_parse(&mut TokenIter::new(tokens), 0, &())
}

fn leaf() -> Tree<Node> {
    Tree::new(Node::Num)
}

fn node(content: Node, children: Vec<Tree<Node>>) -> Tree<Node> {
    Tree::with_children(content, join(children))
}

#[test]
fn infix() {
    assert_eq!(
        parse(vec![Token::Num, Token::InfixLeft, Token::Num, Token::InfixRight, Token::Num]),
        Some(node(Node::InfixLeft, vec![leaf(), node(Node::InfixRight, vec![leaf(), leaf()])])),
    );
    assert_eq!(
        parse(vec![Token::Num, Token::InfixRight, Token::Num, Token::InfixLeft, Token::Num]),
        Some(node(Node::InfixLeft, vec![node(Node::InfixRight, vec![leaf(), leaf()]), leaf()])),
    );
}

#[test]
fn associativity() {
    assert_eq!(
        parse(vec![Token::Num, Token::InfixLeft, Token::Num, Token::InfixLeft, Token::Num]),
        Some(node(Node::InfixLeft, vec![node(Node::InfixLeft, vec![leaf(), leaf()]), leaf()])),
    );
    assert_eq!(
        parse(vec![Token::Num, Token::InfixRight, Token::Num, Token::InfixRight, Token::Num]),
        Some(node(Node::InfixRight, vec![leaf(), node(Node::InfixRight, vec![leaf(), leaf()])])),
    );
}

#[test]
fn prefix() {
    assert_eq!(
        parse(vec![Token::Prefix, Token::Prefix, Token::Num]),
        Some(node(Node::Prefix, vec![node(Node::Prefix, vec![leaf()])])),
    );
    assert_eq!(
        parse(vec![Token::Prefix, Token::Num, Token::InfixLeft, Token::Num]),
        Some(node(Node::InfixLeft, vec![node(Node::Prefix, vec![leaf()]), leaf()])),
    );
    assert_eq!(
        parse(vec![Token::Num, Token::InfixLeft, Token::Prefix, Token::Num]),
        Some(node(Node::InfixLeft, vec![leaf(), node(Node::Prefix, vec![leaf()])])),
    );
}

#[test]
fn parser_group() {
    assert_eq!(
        parse(vec![
            Token::Prefix,
            Token::OpenGroup,
            Token::Num,
            Token::InfixLeft,
            Token::Num,
            Token::CloseGroup,
        ]),
        Some(node(Node::Prefix, vec![node(Node::InfixLeft, vec![leaf(), leaf()])])),
    );
}

#[test]
fn parse_stops_before_weaker_operator() {
    let mut tokens = TokenIter::new(vec![
        Token::Num,
        Token::InfixRight,
        Token::Num,
        Token::InfixLeft,
        Token::Num,
    ]);
    let ast = Parser.partial_parse(&mut tokens, 15, &());
    assert_eq!(ast, Some(node(Node::InfixRight, vec![leaf(), leaf()])));
    assert_eq!(PeekableIterator::peek(&tokens), Some(&Token::InfixLeft));
    assert_eq!(tokens.len(), 2);
}

#[test]
fn aggregate_errors_of_both_sides() {
    let ok: Result<i32, Vec<&str>> = Ok(1);
    let also_ok: Result<char, Vec<&str>> = Ok('a');
    assert_eq!(aggregate_error(ok.clone(), also_ok.clone()), Ok((1, 'a')));
    let err: Result<i32, Vec<&str>> = Err(vec!["a", "b"]);
    let other_err: Result<char, Vec<&str>> = Err(vec!["c"]);
    assert_eq!(aggregate_error(err.clone(), other_err.clone()), Err(vec!["a", "b", "c"]));
    assert_eq!(aggregate_error(err.clone(), also_ok), Err(vec!["a", "b"]));
    assert_eq!(aggregate_error(ok, other_err), Err(vec!["c"]));
}
