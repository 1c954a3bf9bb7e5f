use markdown_it::generics::inline::emph_pair;
use markdown_it::plugins::{cmark, extra};
use markdown_it::{MarkdownIt, Node, NodeValue, Renderer};
use markdown_plugins::Sup;

#[derive(Debug)]
struct SupNode;

impl NodeValue for SupNode {
    fn render(&self, node: &Node, fmt: &mut dyn Renderer) {
        let tag = Sup.tag();
        fmt.open(tag, &node.attrs);
        fmt.contents(&node.children);
        fmt.close(tag);
    }
}

fn parser() -> MarkdownIt {
    let mut parser = MarkdownIt::new();
    cmark::add(&mut parser);
    extra::add(&mut parser);
    emph_pair::add_with::<'~', 1, true>(&mut parser, || Node::new(SupNode));
    parser
}

#[test]
fn foo() {
    let result = parser().parse("~foo~").xrender();

    assert_eq!(result, String::from("<p><sub>foo</sub></p>\n"));
}
