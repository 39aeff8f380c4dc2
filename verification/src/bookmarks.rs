//! Bookmark extraction from the two tree-shaped stores and from the
//! Mozilla-schema bookmark table.
//!
//! Both tree formats are brought into one canonical node shape: an
//! optional bookmark payload (title, URL, and — for the Chromium JSON
//! format — a type tag that must read "url") plus a list of child
//! nodes.  The traversal is a depth-first walk over an explicit
//! work-list, never native call recursion, so a pathologically deep
//! user-generated tree cannot overflow the stack.

use vstd::prelude::*;

use crate::search::{ResultSource, SearchResult};
use crate::text::{chars_of, eq_chars};

verus! {

/// One node of a bookmark tree, already brought into canonical shape by
/// the per-format adapter.
#[derive(Debug)]
pub struct BookmarkTreeNode {
    /// The node's name or title property, if present.
    pub title: Option<String>,
    /// The node's URL string property, if present.
    pub url: Option<String>,
    /// The node's type tag, if present (the Chromium JSON format marks
    /// bookmark leaves with the tag "url").
    pub type_tag: Option<String>,
    /// Child nodes: the children collection and any other nested
    /// properties, in traversal order.
    pub children: Vec<BookmarkTreeNode>,
}

/// Whether a node is a bookmark leaf: it carries a title and a
/// non-empty URL and — when the format requires it — the type tag
/// "url".
pub open spec fn is_bookmark_leaf(n: BookmarkTreeNode, require_tag: bool) -> bool {
    &&& n.title is Some
    &&& n.url is Some
    &&& n.url.unwrap()@.len() > 0
    &&& (require_tag ==> (n.type_tag is Some && n.type_tag.unwrap()@ == "url"@))
}

/// The canonical record a bookmark leaf yields: URL doubles as the
/// subtitle, and bookmarks carry no visit data.
pub open spec fn leaf_record(n: BookmarkTreeNode) -> SearchResult {
    SearchResult {
        title: n.title.unwrap(),
        url: n.url.unwrap(),
        subtitle: n.url.unwrap(),
        favicon: None,
        source: ResultSource::Bookmark,
        visit_count: None,
        last_visit: None,
    }
}

/// The records of a tree, in depth-first order: the node's own record
/// first (if it is a leaf), then its children's records in order.
pub open spec fn tree_bookmarks(n: BookmarkTreeNode, require_tag: bool) -> Seq<SearchResult>
    decreases n,
{
    (if is_bookmark_leaf(n, require_tag) {
        seq![leaf_record(n)]
    } else {
        Seq::empty()
    }) + forest_bookmarks(n.children@, require_tag)
}

/// The records of a sequence of sibling trees, in order.
pub open spec fn forest_bookmarks(cs: Seq<BookmarkTreeNode>, require_tag: bool) -> Seq<
    SearchResult,
>
    decreases cs,
{
    if cs.len() == 0 {
        Seq::empty()
    } else {
        tree_bookmarks(cs[0], require_tag) + forest_bookmarks(cs.drop_first(), require_tag)
    }
}

/// The number of nodes in a tree; the traversal's termination measure.
pub open spec fn tree_size(n: BookmarkTreeNode) -> nat
    decreases n,
{
    1 + forest_size(n.children@)
}

/// The number of nodes in a sequence of sibling trees.
pub open spec fn forest_size(cs: Seq<BookmarkTreeNode>) -> nat
    decreases cs,
{
    if cs.len() == 0 {
        0
    } else {
        tree_size(cs[0]) + forest_size(cs.drop_first())
    }
}

/// The records still owed by the work-list, top of stack first.
spec fn stack_bookmarks(st: Seq<&BookmarkTreeNode>, require_tag: bool) -> Seq<SearchResult>
    decreases st.len(),
{
    if st.len() == 0 {
        Seq::empty()
    } else {
        tree_bookmarks(*st.last(), require_tag) + stack_bookmarks(st.drop_last(), require_tag)
    }
}

/// The number of nodes still on the work-list.
spec fn stack_sizes(st: Seq<&BookmarkTreeNode>) -> nat
    decreases st.len(),
{
    if st.len() == 0 {
        0
    } else {
        tree_size(*st.last()) + stack_sizes(st.drop_last())
    }
}

/// A suffix of a forest loses its first tree when its start moves right
/// by one.
proof fn lemma_forest_suffix_step(cs: Seq<BookmarkTreeNode>, i: int, require_tag: bool)
    requires
        0 <= i < cs.len(),
    ensures
        forest_bookmarks(cs.subrange(i, cs.len() as int), require_tag) == tree_bookmarks(
            cs[i],
            require_tag,
        ) + forest_bookmarks(cs.subrange(i + 1, cs.len() as int), require_tag),
        forest_size(cs.subrange(i, cs.len() as int)) == tree_size(cs[i]) + forest_size(
            cs.subrange(i + 1, cs.len() as int),
        ),
{
    let sub = cs.subrange(i, cs.len() as int);
    assert(sub[0] == cs[i]);
    assert(sub.drop_first() =~= cs.subrange(i + 1, cs.len() as int));
}

/// Walks the tree depth-first with an explicit work-list and collects
/// every bookmark leaf's record, in depth-first order.
pub fn extract_tree_bookmarks(root: &BookmarkTreeNode, require_tag: bool) -> (r: Vec<
    SearchResult,
>)
    ensures
        r@ == tree_bookmarks(*root, require_tag),
{
    let mut out: Vec<SearchResult> = Vec::new();
    let mut stack: Vec<&BookmarkTreeNode> = Vec::new();
    stack.push(root);
    proof {
        assert(stack@.len() == 1);
        assert(stack@.last() == root);
        assert(stack@.drop_last() =~= Seq::<&BookmarkTreeNode>::empty());
        assert(stack_bookmarks(stack@.drop_last(), require_tag)
            == Seq::<SearchResult>::empty());
        assert(stack_bookmarks(stack@, require_tag) =~= tree_bookmarks(*root, require_tag));
        assert(out@ + stack_bookmarks(stack@, require_tag) =~= tree_bookmarks(
            *root,
            require_tag,
        ));
    }
    while stack.len() > 0
        invariant
            out@ + stack_bookmarks(stack@, require_tag) == tree_bookmarks(*root, require_tag),
        decreases stack_sizes(stack@),
    {
        let ghost st_before = stack@;
        let node = stack.pop().unwrap();
        let ghost base = stack@;
        proof {
            assert(node == st_before.last());
            assert(base == st_before.drop_last());
            assert(stack_bookmarks(st_before, require_tag) == tree_bookmarks(
                *node,
                require_tag,
            ) + stack_bookmarks(base, require_tag));
            assert(stack_sizes(st_before) == tree_size(*node) + stack_sizes(base));
        }
        let is_leaf: bool = match (&node.title, &node.url) {
            (Some(_t), Some(u)) => {
                if u.as_str().is_empty() {
                    false
                } else if require_tag {
                    match &node.type_tag {
                        Some(tag) => {
                            let tv = chars_of(tag.as_str());
                            let uv = chars_of("url");
                            eq_chars(&tv, &uv)
                        },
                        None => false,
                    }
                } else {
                    true
                }
            },
            _ => false,
        };
        proof {
            assert(is_leaf == is_bookmark_leaf(*node, require_tag));
        }
        let ghost out_before = out@;
        if is_leaf {
            match (&node.title, &node.url) {
                (Some(t), Some(u)) => {
                    out.push(
                        SearchResult {
                            title: t.clone(),
                            url: u.clone(),
                            subtitle: u.clone(),
                            favicon: None,
                            source: ResultSource::Bookmark,
                            visit_count: None,
                            last_visit: None,
                        },
                    );
                    proof {
                        assert(out@ =~= out_before + seq![leaf_record(*node)]);
                    }
                },
                _ => {
                    proof {
                        assert(false);
                    }
                },
            }
        } else {
            proof {
                assert(out@ =~= out_before + Seq::<SearchResult>::empty());
            }
        }
        let ghost emitted = (if is_bookmark_leaf(*node, require_tag) {
            seq![leaf_record(*node)]
        } else {
            Seq::<SearchResult>::empty()
        });
        proof {
            assert(out@ == out_before + emitted);
        }
        let m: usize = node.children.len();
        let ghost cs = node.children@;
        let mut idx: usize = m;
        proof {
            assert(cs.subrange(m as int, m as int) =~= Seq::<BookmarkTreeNode>::empty());
            assert(forest_bookmarks(cs.subrange(m as int, m as int), require_tag)
                =~= Seq::<SearchResult>::empty());
        }
        while idx > 0
            invariant
                idx <= m,
                m == cs.len(),
                cs == node.children@,
                stack_bookmarks(stack@, require_tag) == forest_bookmarks(
                    cs.subrange(idx as int, m as int),
                    require_tag,
                ) + stack_bookmarks(base, require_tag),
                stack_sizes(stack@) == forest_size(cs.subrange(idx as int, m as int))
                    + stack_sizes(base),
            decreases idx,
        {
            idx = idx - 1;
            let ghost st_old = stack@;
            let child: &BookmarkTreeNode = &node.children[idx];
            stack.push(child);
            proof {
                assert(stack@.last() == child);
                assert(*child == cs[idx as int]);
                assert(stack@.drop_last() =~= st_old);
                assert(stack_bookmarks(stack@, require_tag) == tree_bookmarks(
                    cs[idx as int],
                    require_tag,
                ) + stack_bookmarks(st_old, require_tag));
                assert(stack_sizes(stack@) == tree_size(cs[idx as int]) + stack_sizes(st_old));
                lemma_forest_suffix_step(cs, idx as int, require_tag);
            }
        }
        proof {
            assert(cs.subrange(0, m as int) =~= cs);
            assert(stack_bookmarks(stack@, require_tag) == forest_bookmarks(cs, require_tag)
                + stack_bookmarks(base, require_tag));
            assert(tree_bookmarks(*node, require_tag) == emitted + forest_bookmarks(
                cs,
                require_tag,
            ));
            assert(out@ + stack_bookmarks(stack@, require_tag) =~= out_before + (emitted
                + forest_bookmarks(cs, require_tag)) + stack_bookmarks(base, require_tag));
            assert(out_before + (emitted + forest_bookmarks(cs, require_tag)) + stack_bookmarks(
                base,
                require_tag,
            ) =~= out_before + stack_bookmarks(st_before, require_tag));
            assert(forest_size(cs) + 1 == tree_size(*node));
        }
    }
    proof {
        assert(stack_bookmarks(stack@, require_tag) =~= Seq::<SearchResult>::empty());
        assert(out@ =~= tree_bookmarks(*root, require_tag));
    }
    out
}

/// One row read from the Mozilla-schema bookmark table: a true
/// bookmark's title and URL.
#[derive(Debug, Clone, PartialEq)]
pub struct BookmarkRow {
    pub title: String,
    pub url: String,
}

/// Whether a bookmark row survives extraction: both fields present.
pub open spec fn bookmark_row_ok(row: BookmarkRow) -> bool {
    row.title@.len() > 0 && row.url@.len() > 0
}

/// The canonical record a bookmark row yields.
pub open spec fn bookmark_record(row: BookmarkRow) -> SearchResult {
    SearchResult {
        title: row.title,
        url: row.url,
        subtitle: row.url,
        favicon: None,
        source: ResultSource::Bookmark,
        visit_count: None,
        last_visit: None,
    }
}

/// What bookmark-table extraction returns: one record per surviving
/// row, in row order.
pub open spec fn spec_bookmark_records(rows: Seq<BookmarkRow>) -> Seq<SearchResult> {
    rows.filter(|row: BookmarkRow| bookmark_row_ok(row)).map_values(
        |row: BookmarkRow| bookmark_record(row),
    )
}

/// Extracts canonical records from Mozilla-schema bookmark rows,
/// dropping rows with an empty title or URL.
pub fn extract_bookmark_rows(rows: Vec<BookmarkRow>) -> (r: Vec<SearchResult>)
    ensures
        r@ == spec_bookmark_records(rows@),
{
    let ghost orig = rows@;
    let mut input = rows;
    let mut out: Vec<SearchResult> = Vec::new();
    while input.len() > 0
        invariant
            input@.len() <= orig.len(),
            input@ =~= orig.subrange(orig.len() - input@.len(), orig.len() as int),
            out@ == spec_bookmark_records(orig.subrange(0, orig.len() - input@.len())),
        decreases input@.len(),
    {
        let ghost k: int = orig.len() - input@.len();
        let ghost prefix = orig.subrange(0, k);
        let ghost before = input@;
        let x = input.remove(0);
        proof {
            crate::seqs::lemma_suffix_step(orig, k);
            assert(before == orig.subrange(k, orig.len() as int));
            assert(x == orig[k]);
            assert(input@ == before.remove(0));
            assert(input@ =~= orig.subrange(k + 1, orig.len() as int));
            assert(orig.subrange(0, k + 1).drop_last() == prefix);
            assert(orig.subrange(0, k + 1).last() == x);
        }
        let ok = !x.title.as_str().is_empty() && !x.url.as_str().is_empty();
        proof {
            reveal_with_fuel(Seq::<BookmarkRow>::filter, 2);
            assert(ok == bookmark_row_ok(x));
        }
        let ghost newpref = orig.subrange(0, k + 1);
        let ghost pred = (|row: BookmarkRow| bookmark_row_ok(row));
        if ok {
            let rec = SearchResult {
                title: x.title,
                url: x.url.clone(),
                subtitle: x.url,
                favicon: None,
                source: ResultSource::Bookmark,
                visit_count: None,
                last_visit: None,
            };
            proof {
                assert(rec == bookmark_record(x));
            }
            out.push(rec);
            proof {
                assert(newpref.filter(pred) == prefix.filter(pred).push(x));
                assert(out@ =~= spec_bookmark_records(newpref));
            }
        } else {
            proof {
                assert(newpref.filter(pred) == prefix.filter(pred));
                assert(out@ =~= spec_bookmark_records(newpref));
            }
        }
    }
    proof {
        crate::seqs::lemma_subrange_all(orig);
    }
    out
}

} // verus!
