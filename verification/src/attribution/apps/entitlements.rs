//! The app groups that an app is entitled to.

use vstd::prelude::*;

use crate::doc::{field, parse_plist, plist_document, Doc, DocView};

verus! {

/// The texts of a list, where it holds nothing else.
pub open spec fn all_texts(items: Seq<DocView>) -> Option<Seq<Seq<char>>> {
    if forall|i: int| 0 <= i < items.len() ==> (#[trigger] items[i]) is Text {
        Some(Seq::new(items.len(), |i: int| items[i]->Text_0))
    } else {
        None
    }
}

/// The app groups in an entitlements document: none where the key is missing; nothing at all where
/// the document is no table or the key holds something else than a list of texts. A parsed document
/// has each key once: a file that gives the key twice is to be refused by whoever reads it, and where
/// it is not, the last list is the one that is seen here.
pub open spec fn groups_in(d: DocView) -> Option<Seq<Seq<char>>> {
    if !(d is Table) {
        None
    } else {
        match field(d, "com.apple.security.application-groups"@) {
            None => Some(seq![]),
            Some(DocView::List(items)) => all_texts(items),
            Some(_) => None,
        }
    }
}

/// The app groups in an entitlements document.
pub fn application_groups(d: &Doc) -> (r: Option<Vec<String>>)
    ensures
        r.deep_view() == groups_in(d@),
{
    let is_table = match d {
        Doc::Table(_) => true,
        _ => false,
    };
    if !is_table {
        return None;
    }
    match d.get("com.apple.security.application-groups") {
        None => {
            let none: Vec<String> = Vec::new();
            assert(none.deep_view() =~= seq![]);
            Some(none)
        },
        Some(Doc::List(items)) => {
            let ghost all = items.deep_view();
            let ghost listed = field(d@, "com.apple.security.application-groups"@)->0;
            assert(all =~= listed->List_0);
            let mut out: Vec<String> = Vec::new();
            let mut i: usize = 0;
            while i < items.len()
                invariant
                    i <= items.len(),
                    all == items.deep_view(),
                    d@ is Table,
                    field(d@, "com.apple.security.application-groups"@) == Some(DocView::List(all)),
                    out.len() == i,
                    forall|j: int|
                        0 <= j < i ==> (#[trigger] all[j]) is Text && out@[j]@ == all[j]->Text_0,
                decreases items.len() - i,
            {
                assert(all[i as int] == items@[i as int]@);
                match &items[i] {
                    Doc::Text(s) => {
                        out.push(s.clone());
                    },
                    _ => {
                        assert(!(all[i as int] is Text));
                        return None;
                    },
                }
                i = i + 1;
            }
            assert(out.deep_view() =~= Seq::new(all.len(), |i: int| all[i]->Text_0));
            Some(out)
        },
        Some(_) => None,
    }
}

/// The app groups in what `codesign -d --entitlements - --xml` prints; nothing where that is no
/// property list.
pub fn parse_entitlements(xml: &[u8]) -> (r: Option<Vec<String>>)
    ensures
        r.deep_view() == (match plist_document(xml@) {
            Some(d) => groups_in(d),
            None => None,
        }),
{
    match parse_plist(xml) {
        Some(d) => application_groups(&d),
        None => None,
    }
}

} // verus!
