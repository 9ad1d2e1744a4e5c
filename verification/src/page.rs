//! A plain model of a parsed wiki page: the sequence of section headings
//! and tables that the extraction rules read, with each table a list of
//! rows and each row a list of cells. The host turns real HTML into this
//! shape; every rule over it is verified.
use vstd::prelude::*;

verus! {

/// An anchor inside a cell.
pub struct PageLink {
    pub href: Option<String>,
    pub title: Option<String>,
    pub text: String,
}

#[verifier::ext_equal]
pub ghost struct PageLinkV {
    pub href: Option<Seq<char>>,
    pub title: Option<Seq<char>>,
    pub text: Seq<char>,
}

impl View for PageLink {
    type V = PageLinkV;

    open spec fn view(&self) -> PageLinkV {
        PageLinkV {
            href: match self.href {
                Some(h) => Some(h@),
                None => None,
            },
            title: match self.title {
                Some(t) => Some(t@),
                None => None,
            },
            text: self.text@,
        }
    }
}

/// One table cell: its anchors, its flattened text, and its inner markup.
pub struct PageCell {
    pub links: Vec<PageLink>,
    pub text: String,
    pub html: String,
}

#[verifier::ext_equal]
pub ghost struct PageCellV {
    pub links: Seq<PageLinkV>,
    pub text: Seq<char>,
    pub html: Seq<char>,
}

impl View for PageCell {
    type V = PageCellV;

    open spec fn view(&self) -> PageCellV {
        PageCellV {
            links: self.links@.map_values(|l: PageLink| l@),
            text: self.text@,
            html: self.html@,
        }
    }
}

/// One table row.
pub struct TableRow {
    pub cells: Vec<PageCell>,
}

impl View for TableRow {
    type V = Seq<PageCellV>;

    open spec fn view(&self) -> Seq<PageCellV> {
        self.cells@.map_values(|c: PageCell| c@)
    }
}

/// A page flattened to the order of its headings and tables.
pub enum PageNode {
    Heading(String),
    Table(Vec<TableRow>),
}

#[verifier::ext_equal]
pub ghost enum PageNodeV {
    Heading(Seq<char>),
    Table(Seq<Seq<PageCellV>>),
}

impl View for PageNode {
    type V = PageNodeV;

    open spec fn view(&self) -> PageNodeV {
        match self {
            PageNode::Heading(h) => PageNodeV::Heading(h@),
            PageNode::Table(rows) => PageNodeV::Table(rows@.map_values(|r: TableRow| r@)),
        }
    }
}

/// The views of a sequence of rows.
pub open spec fn rows_view(rows: Seq<TableRow>) -> Seq<Seq<PageCellV>> {
    rows.map_values(|r: TableRow| r@)
}

/// The views of a sequence of page nodes.
pub open spec fn nodes_view(nodes: Seq<PageNode>) -> Seq<PageNodeV> {
    nodes.map_values(|n: PageNode| n@)
}

/// A sequence without its first element, or empty; used to pass over a
/// table's header row.
pub open spec fn behind_header<T>(rows: Seq<T>) -> Seq<T> {
    if rows.len() == 0 {
        rows
    } else {
        rows.drop_first()
    }
}

} // verus!
