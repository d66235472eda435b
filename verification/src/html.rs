//! Extracting candidate buildinfo links from a pool-directory listing.
//!
//! The listing is hypertext; an outside HTML parser walks it and hands back
//! every anchor's `href` in document order, and the verified part keeps
//! those that end in the buildinfo suffix, order preserved.

use vstd::prelude::*;

use kuchiki::traits::TendrilSink;

use crate::bytes::{ascii_seq, ends_with, has_suffix, str_bytes};
use crate::errors::Error;

verus! {

/// The `href` attribute values of the anchor tags of an HTML document, in
/// document order. What a document's anchors are is a function of its bytes
/// alone.
pub uninterp spec fn anchor_hrefs(html: Seq<u8>) -> Seq<Seq<u8>>;

/// Relies on kuchiki's `parse_html`, `select("a")` and `attributes.get`:
/// parsing the document and walking its anchor tags yields their `href`
/// values in document order.
#[verifier::external_body]
fn html_anchor_hrefs(html: &[u8]) -> (r: Vec<Vec<u8>>)
    ensures
        r.deep_view() == anchor_hrefs(html@),
{
    let text = String::from_utf8_lossy(html);
    let document = kuchiki::parse_html().one(text.as_ref());
    let mut out = Vec::new();
    if let Ok(anchors) = document.select("a") {
        for anchor in anchors {
            if let Some(href) = anchor.attributes.borrow().get("href") {
                out.push(href.as_bytes().to_vec());
            }
        }
    }
    out
}

/// A link to a buildinfo file: an href ending in `.buildinfo`.
pub open spec fn is_buildinfo_href(h: Seq<u8>) -> bool {
    has_suffix(h, ascii_seq(".buildinfo"@))
}

/// The buildinfo links among `hs`, order preserved.
pub open spec fn buildinfo_hrefs_of(hs: Seq<Seq<u8>>) -> Seq<Seq<u8>>
    decreases hs.len(),
{
    if hs.len() == 0 {
        Seq::empty()
    } else {
        let rest = buildinfo_hrefs_of(hs.drop_first());
        if is_buildinfo_href(hs[0]) {
            seq![hs[0]] + rest
        } else {
            rest
        }
    }
}

/// The buildinfo links of a directory listing, in document order: every
/// anchor href ending in the buildinfo suffix, and nothing else.
pub fn parse_buildinfo_hrefs(html: &[u8]) -> (r: Result<Vec<Vec<u8>>, Error>)
    ensures
        r is Ok,
        r->Ok_0.deep_view() == buildinfo_hrefs_of(anchor_hrefs(html@)),
{
    let hrefs = html_anchor_hrefs(html);
    let ghost hv = hrefs.deep_view();
    let n = hrefs.len();
    let mut out: Vec<Vec<u8>> = Vec::new();
    let mut i: usize = 0;
    proof {
        assert(hv.skip(0) =~= hv);
        assert(out.deep_view() =~~= Seq::<Seq<u8>>::empty());
    }
    while i < n
        invariant
            0 <= i <= n,
            n == hv.len(),
            hv == hrefs.deep_view(),
            n == hrefs@.len(),
            buildinfo_hrefs_of(hv) == out.deep_view() + buildinfo_hrefs_of(hv.skip(i as int)),
        decreases n - i,
    {
        proof {
            assert(hv.skip(i as int).len() > 0);
            assert(hv.skip(i as int)[0] == hv[i as int]);
            assert(hv.skip(i as int).drop_first() =~= hv.skip(i as int + 1));
            reveal_strlit(".buildinfo");
        }
        let h: &Vec<u8> = &hrefs[i];
        proof {
            assert(h.deep_view() == hv[i as int]);
            assert(h@ =~= h.deep_view());
        }
        let sfx = str_bytes(".buildinfo");
        if ends_with(h.as_slice(), sfx.as_slice()) {
            let ghost before = out.deep_view();
            out.push(crate::bytes::copy_bytes(h.as_slice()));
            proof {
                assert(out.deep_view() =~~= before.push(hv[i as int]));
                assert(buildinfo_hrefs_of(hv.skip(i as int)) =~= seq![hv[i as int]]
                    + buildinfo_hrefs_of(hv.skip(i as int + 1)));
                assert(before + (seq![hv[i as int]] + buildinfo_hrefs_of(hv.skip(i as int + 1)))
                    =~= out.deep_view() + buildinfo_hrefs_of(hv.skip(i as int + 1)));
            }
        } else {
            proof {
                assert(buildinfo_hrefs_of(hv.skip(i as int)) == buildinfo_hrefs_of(
                    hv.skip(i as int + 1),
                ));
            }
        }
        i += 1;
    }
    proof {
        assert(hv.skip(n as int) =~= Seq::<Seq<u8>>::empty());
        assert(out.deep_view() + buildinfo_hrefs_of(hv.skip(n as int)) =~~= out.deep_view());
    }
    Ok(out)
}

} // verus!
