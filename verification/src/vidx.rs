use vstd::prelude::*;

use crate::error::ParseError;
use crate::strutil::{push_str, str_eq};
use crate::xml::{parse_document, xml_doc, XmlElement};

verus! {

/// A reference to one pack description archive.
#[derive(Debug, Clone)]
pub struct PdscRef {
    pub url: String,
    pub vendor: String,
    pub name: String,
    pub version: String,
}

/// The mathematical shape of `PdscRef`.
pub struct PdscRefModel {
    pub url: Seq<char>,
    pub vendor: Seq<char>,
    pub name: Seq<char>,
    pub version: Seq<char>,
}

impl View for PdscRef {
    type V = PdscRefModel;

    open spec fn view(&self) -> PdscRefModel {
        PdscRefModel {
            url: self.url@,
            vendor: self.vendor@,
            name: self.name@,
            version: self.version@,
        }
    }
}

impl DeepView for PdscRef {
    type V = PdscRefModel;

    open spec fn deep_view(&self) -> PdscRefModel {
        self.view()
    }
}

/// A reference to one vendor's pack index.
#[derive(Debug, Clone)]
pub struct Pidx {
    pub url: String,
    pub vendor: String,
}

/// The mathematical shape of `Pidx`.
pub struct PidxModel {
    pub url: Seq<char>,
    pub vendor: Seq<char>,
}

impl View for Pidx {
    type V = PidxModel;

    open spec fn view(&self) -> PidxModel {
        PidxModel { url: self.url@, vendor: self.vendor@ }
    }
}

impl DeepView for Pidx {
    type V = PidxModel;

    open spec fn deep_view(&self) -> PidxModel {
        self.view()
    }
}

/// One vendor index document: the pack indices it points at, and the pack
/// descriptions it lists directly.
#[derive(Debug)]
pub struct Vidx {
    pub vendor_index: Vec<Pidx>,
    pub pdsc_index: Vec<PdscRef>,
}

/// The mathematical shape of `Vidx`.
pub struct VidxModel {
    pub vendor_index: Seq<PidxModel>,
    pub pdsc_index: Seq<PdscRefModel>,
}

impl View for Vidx {
    type V = VidxModel;

    open spec fn view(&self) -> VidxModel {
        VidxModel {
            vendor_index: self.vendor_index.deep_view(),
            pdsc_index: self.pdsc_index.deep_view(),
        }
    }
}

impl DeepView for Vidx {
    type V = VidxModel;

    open spec fn deep_view(&self) -> VidxModel {
        self.view()
    }
}

/// The pack-index reference a `pidx` element denotes, if it carries both
/// required attributes.
pub open spec fn s_parse_pidx(e: XmlElement) -> Option<PidxModel> {
    match e.spec_attr("url"@) {
        None => None,
        Some(url) => match e.spec_attr("vendor"@) {
            None => None,
            Some(vendor) => Some(PidxModel { url, vendor }),
        },
    }
}

/// The pack-description reference a `pdsc` element denotes, if it carries
/// all four required attributes.
pub open spec fn s_parse_pdscref(e: XmlElement) -> Option<PdscRefModel> {
    match e.spec_attr("url"@) {
        None => None,
        Some(url) => match e.spec_attr("vendor"@) {
            None => None,
            Some(vendor) => match e.spec_attr("name"@) {
                None => None,
                Some(name) => match e.spec_attr("version"@) {
                    None => None,
                    Some(version) => Some(PdscRefModel { url, vendor, name, version }),
                },
            },
        },
    }
}

/// The pack-index references under one `vendor_index` element, in document
/// order; a `pidx` child missing an attribute is skipped.
pub open spec fn s_pidx_list(cs: Seq<XmlElement>) -> Seq<PidxModel>
    decreases cs.len(),
{
    if cs.len() == 0 {
        Seq::<PidxModel>::empty()
    } else {
        s_pidx_list(cs.drop_last()) + (if cs.last().name@ == "pidx"@ {
            match s_parse_pidx(cs.last()) {
                Some(p) => seq![p],
                None => Seq::<PidxModel>::empty(),
            }
        } else {
            Seq::<PidxModel>::empty()
        })
    }
}

/// The pack-description references under one `pdsc_index` element, in
/// document order; a `pdsc` child missing an attribute is skipped.
pub open spec fn s_pdsc_list(cs: Seq<XmlElement>) -> Seq<PdscRefModel>
    decreases cs.len(),
{
    if cs.len() == 0 {
        Seq::<PdscRefModel>::empty()
    } else {
        s_pdsc_list(cs.drop_last()) + (if cs.last().name@ == "pdsc"@ {
            match s_parse_pdscref(cs.last()) {
                Some(p) => seq![p],
                None => Seq::<PdscRefModel>::empty(),
            }
        } else {
            Seq::<PdscRefModel>::empty()
        })
    }
}

/// The vendor index a root element denotes: `pidx` entries under its
/// `vendor_index` children and `pdsc` entries under its `pdsc_index`
/// children, each in document order. Anything else is ignored.
pub open spec fn s_vidx_lists(cs: Seq<XmlElement>) -> (Seq<PidxModel>, Seq<PdscRefModel>)
    decreases cs.len(),
{
    if cs.len() == 0 {
        (Seq::<PidxModel>::empty(), Seq::<PdscRefModel>::empty())
    } else {
        let rest = s_vidx_lists(cs.drop_last());
        if cs.last().name@ == "vendor_index"@ {
            (rest.0 + s_pidx_list(cs.last().children@), rest.1)
        } else if cs.last().name@ == "pdsc_index"@ {
            (rest.0, rest.1 + s_pdsc_list(cs.last().children@))
        } else {
            rest
        }
    }
}

/// The vendor index a document denotes, if its root is an `index` element.
pub open spec fn s_vidx(e: XmlElement) -> Option<VidxModel> {
    if e.name@ == "index"@ {
        Some(
            VidxModel {
                vendor_index: s_vidx_lists(e.children@).0,
                pdsc_index: s_vidx_lists(e.children@).1,
            },
        )
    } else {
        None
    }
}

/// The two index tag names differ.
proof fn lemma_index_tags()
    ensures
        "vendor_index"@ != "pdsc_index"@,
        "pidx"@ != "pdsc"@,
{
    reveal_strlit("vendor_index");
    reveal_strlit("pdsc_index");
    reveal_strlit("pidx");
    reveal_strlit("pdsc");
    assert("vendor_index"@[0] == 'v');
    assert("pdsc_index"@[0] == 'p');
    assert("vendor_index"@.len() == 12);
    assert("pdsc_index"@.len() == 10);
    assert("pidx"@.len() == 4);
    assert("pdsc"@.len() == 4);
    assert("pidx"@[1] == 'i');
    assert("pdsc"@[1] == 'd');
}

/// One step of the `pidx` collection.
proof fn lemma_pidx_step(cs: Seq<XmlElement>, i: int)
    requires
        0 <= i < cs.len(),
    ensures
        s_pidx_list(cs.take(i + 1)) == s_pidx_list(cs.take(i)) + (if cs[i].name@ == "pidx"@ {
            match s_parse_pidx(cs[i]) {
                Some(p) => seq![p],
                None => Seq::<PidxModel>::empty(),
            }
        } else {
            Seq::<PidxModel>::empty()
        }),
{
    assert(cs.take(i + 1).drop_last() =~= cs.take(i));
    assert(cs.take(i + 1).last() == cs[i]);
}

/// One step of the `pdsc` collection.
proof fn lemma_pdsc_step(cs: Seq<XmlElement>, i: int)
    requires
        0 <= i < cs.len(),
    ensures
        s_pdsc_list(cs.take(i + 1)) == s_pdsc_list(cs.take(i)) + (if cs[i].name@ == "pdsc"@ {
            match s_parse_pdscref(cs[i]) {
                Some(p) => seq![p],
                None => Seq::<PdscRefModel>::empty(),
            }
        } else {
            Seq::<PdscRefModel>::empty()
        }),
{
    assert(cs.take(i + 1).drop_last() =~= cs.take(i));
    assert(cs.take(i + 1).last() == cs[i]);
}

/// One step of the index walk.
proof fn lemma_vidx_step(cs: Seq<XmlElement>, i: int)
    requires
        0 <= i < cs.len(),
    ensures
        cs[i].name@ == "vendor_index"@ ==> s_vidx_lists(cs.take(i + 1)) == (
            s_vidx_lists(cs.take(i)).0 + s_pidx_list(cs[i].children@),
            s_vidx_lists(cs.take(i)).1,
        ),
        cs[i].name@ != "vendor_index"@ && cs[i].name@ == "pdsc_index"@ ==> s_vidx_lists(
            cs.take(i + 1),
        ) == (s_vidx_lists(cs.take(i)).0, s_vidx_lists(cs.take(i)).1 + s_pdsc_list(
            cs[i].children@,
        )),
        cs[i].name@ != "vendor_index"@ && cs[i].name@ != "pdsc_index"@ ==> s_vidx_lists(
            cs.take(i + 1),
        ) == s_vidx_lists(cs.take(i)),
{
    assert(cs.take(i + 1).drop_last() =~= cs.take(i));
    assert(cs.take(i + 1).last() == cs[i]);
}

/// Collect the `pidx` entries of a `vendor_index` element.
#[verifier::loop_isolation(false)]
fn parse_pidx_list(e: &XmlElement, out: &mut Vec<Pidx>)
    ensures
        final(out).deep_view() == old(out).deep_view() + s_pidx_list(e.children@),
{
    let ghost base = old(out).deep_view();
    let n = e.children.len();
    let mut i: usize = 0;
    proof {
        assert(e.children@.take(0) =~= Seq::<XmlElement>::empty());
        assert(base + s_pidx_list(e.children@.take(0)) =~= base);
    }
    while i < n
        invariant
            0 <= i <= n,
            out.deep_view() == base + s_pidx_list(e.children@.take(i as int)),
        decreases n - i,
    {
        let c = &e.children[i];
        let ghost pre = out.deep_view();
        proof {
            lemma_pidx_step(e.children@, i as int);
        }
        if str_eq(c.name.as_str(), "pidx") {
            match (c.attr("url"), c.attr("vendor")) {
                (Some(url), Some(vendor)) => {
                    out.push(Pidx { url: url.clone(), vendor: vendor.clone() });
                    proof {
                        assert(out.deep_view() =~= pre.push(s_parse_pidx(*c).unwrap()));
                        assert(out.deep_view() =~= base + s_pidx_list(
                            e.children@.take(i + 1),
                        ));
                    }
                },
                _ => {
                    proof {
                        assert(out.deep_view() =~= base + s_pidx_list(
                            e.children@.take(i + 1),
                        ));
                    }
                },
            }
        } else {
            proof {
                assert(out.deep_view() =~= base + s_pidx_list(e.children@.take(i + 1)));
            }
        }
        i += 1;
    }
    proof {
        assert(e.children@.take(n as int) =~= e.children@);
    }
}

/// Collect the `pdsc` entries of a `pdsc_index` element.
#[verifier::loop_isolation(false)]
fn parse_pdsc_list(e: &XmlElement, out: &mut Vec<PdscRef>)
    ensures
        final(out).deep_view() == old(out).deep_view() + s_pdsc_list(e.children@),
{
    let ghost base = old(out).deep_view();
    let n = e.children.len();
    let mut i: usize = 0;
    proof {
        assert(e.children@.take(0) =~= Seq::<XmlElement>::empty());
        assert(base + s_pdsc_list(e.children@.take(0)) =~= base);
    }
    while i < n
        invariant
            0 <= i <= n,
            out.deep_view() == base + s_pdsc_list(e.children@.take(i as int)),
        decreases n - i,
    {
        let c = &e.children[i];
        let ghost pre = out.deep_view();
        proof {
            lemma_pdsc_step(e.children@, i as int);
        }
        if str_eq(c.name.as_str(), "pdsc") {
            match (c.attr("url"), c.attr("vendor"), c.attr("name"), c.attr("version")) {
                (Some(url), Some(vendor), Some(name), Some(version)) => {
                    out.push(
                        PdscRef {
                            url: url.clone(),
                            vendor: vendor.clone(),
                            name: name.clone(),
                            version: version.clone(),
                        },
                    );
                    proof {
                        assert(out.deep_view() =~= pre.push(s_parse_pdscref(*c).unwrap()));
                        assert(out.deep_view() =~= base + s_pdsc_list(
                            e.children@.take(i + 1),
                        ));
                    }
                },
                _ => {
                    proof {
                        assert(out.deep_view() =~= base + s_pdsc_list(
                            e.children@.take(i + 1),
                        ));
                    }
                },
            }
        } else {
            proof {
                assert(out.deep_view() =~= base + s_pdsc_list(e.children@.take(i + 1)));
            }
        }
        i += 1;
    }
    proof {
        assert(e.children@.take(n as int) =~= e.children@);
    }
}

impl Vidx {
    /// The vendor index a parsed document denotes; a root that is not an
    /// `index` element is rejected.
    #[verifier::loop_isolation(false)]
    pub fn from_elem(e: &XmlElement) -> (r: Result<Vidx, ParseError>)
        ensures
            r is Ok <==> s_vidx(*e) is Some,
            r matches Ok(v) ==> Some(v@) == s_vidx(*e),
            r is Err ==> r matches Err(ParseError::Xml),
    {
        if !str_eq(e.name.as_str(), "index") {
            return Err(ParseError::Xml);
        }
        let mut vendor_index: Vec<Pidx> = Vec::new();
        let mut pdsc_index: Vec<PdscRef> = Vec::new();
        let n = e.children.len();
        let mut i: usize = 0;
        proof {
            assert(e.children@.take(0) =~= Seq::<XmlElement>::empty());
            assert(vendor_index.deep_view() =~= Seq::<PidxModel>::empty());
            assert(pdsc_index.deep_view() =~= Seq::<PdscRefModel>::empty());
        }
        while i < n
            invariant
                0 <= i <= n,
                vendor_index.deep_view() == s_vidx_lists(e.children@.take(i as int)).0,
                pdsc_index.deep_view() == s_vidx_lists(e.children@.take(i as int)).1,
            decreases n - i,
        {
            let c = &e.children[i];
            proof {
                lemma_vidx_step(e.children@, i as int);
                lemma_index_tags();
            }
            if str_eq(c.name.as_str(), "vendor_index") {
                parse_pidx_list(c, &mut vendor_index);
            } else if str_eq(c.name.as_str(), "pdsc_index") {
                parse_pdsc_list(c, &mut pdsc_index);
            }
            proof {
                assert(vendor_index.deep_view() == s_vidx_lists(e.children@.take(i + 1)).0);
                assert(pdsc_index.deep_view() == s_vidx_lists(e.children@.take(i + 1)).1);
            }
            i += 1;
        }
        proof {
            assert(e.children@.take(n as int) =~= e.children@);
        }
        Ok(Vidx { vendor_index, pdsc_index })
    }
}

/// Parse a vendor index or pack index document from its text.
pub fn parse_vidx(body: &str) -> (r: Result<Vidx, ParseError>)
    ensures
        r is Ok <==> (xml_doc(body@) matches Some(doc) && s_vidx(doc) is Some),
        r matches Ok(v) ==> Some(v@) == s_vidx(xml_doc(body@).unwrap()),
        r is Err ==> r matches Err(ParseError::Xml),
{
    match parse_document(body) {
        Some(doc) => Vidx::from_elem(&doc),
        None => Err(ParseError::Xml),
    }
}

/// The pack-index location a `Pidx` entry denotes: its url, its vendor,
/// and the `.pidx` suffix, run together.
pub open spec fn s_pidx_uri(p: PidxModel) -> Seq<char> {
    p.url + p.vendor + ".pidx"@
}

/// The location of one vendor's pack index.
pub fn into_uri(p: &Pidx) -> (r: String)
    ensures
        r@ == s_pidx_uri(p@),
{
    let mut r = p.url.clone();
    push_str(&mut r, p.vendor.as_str());
    push_str(&mut r, ".pidx");
    r
}

/// The pack-index locations of every entry of a vendor index, in document
/// order.
#[verifier::loop_isolation(false)]
pub fn pidx_urls(v: &Vidx) -> (r: Vec<String>)
    ensures
        r@.len() == v.vendor_index@.len(),
        forall|i: int|
            0 <= i < r@.len() ==> (#[trigger] r@[i])@ == s_pidx_uri(v@.vendor_index[i]),
{
    let n = v.vendor_index.len();
    let mut r: Vec<String> = Vec::new();
    let mut i: usize = 0;
    while i < n
        invariant
            0 <= i <= n,
            r@.len() == i,
            forall|j: int|
                0 <= j < i ==> (#[trigger] r@[j])@ == s_pidx_uri(v@.vendor_index[j]),
        decreases n - i,
    {
        r.push(into_uri(&v.vendor_index[i]));
        i += 1;
    }
    r
}

/// The flat reference stream: the root's own references first, then those
/// of every pack index that was fetched; a fetch that failed contributes
/// nothing and poisons nothing.
pub open spec fn s_flatten(root: VidxModel, fetched: Seq<Option<VidxModel>>) -> Seq<PdscRefModel>
    decreases fetched.len(),
{
    if fetched.len() == 0 {
        root.pdsc_index
    } else {
        s_flatten(root, fetched.drop_last()) + (match fetched.last() {
            Some(v) => v.pdsc_index,
            None => Seq::<PdscRefModel>::empty(),
        })
    }
}

/// Flatten the references of a root vendor index and of the pack indices
/// fetched for it, one optional result per index in the same order.
#[verifier::loop_isolation(false)]
pub fn flatten_pdscs(root: Vidx, fetched: Vec<Option<Vidx>>) -> (r: Vec<PdscRef>)
    ensures
        r.deep_view() == s_flatten(root@, fetched.deep_view()),
{
    let ghost gf = fetched.deep_view();
    let ghost groot = root@;
    let mut out = root.pdsc_index;
    let mut rest = fetched;
    let ghost k: int = 0;
    proof {
        assert(gf.take(0) =~= Seq::<Option<VidxModel>>::empty());
        assert(rest.deep_view() =~= gf.skip(0));
        assert(out.deep_view() =~= s_flatten(groot, gf.take(0)));
    }
    while rest.len() > 0
        invariant
            0 <= k <= gf.len(),
            k + rest@.len() == gf.len(),
            rest.deep_view() == gf.skip(k),
            out.deep_view() == s_flatten(groot, gf.take(k)),
        decreases rest@.len(),
    {
        let ghost pre = rest@;
        let v = rest.remove(0);
        proof {
            crate::device::lemma_deep_view_shift(pre, rest@, gf, k);
            assert(v.deep_view() == gf[k]);
            assert(gf.take(k + 1).drop_last() =~= gf.take(k));
            assert(gf.take(k + 1).last() == gf[k]);
        }
        let ghost preout = out.deep_view();
        match v {
            Some(vidx) => {
                let mut more = vidx.pdsc_index;
                out.append(&mut more);
                proof {
                    assert(out.deep_view() =~= preout + gf[k].unwrap().pdsc_index);
                    assert(out.deep_view() =~= s_flatten(groot, gf.take(k + 1)));
                }
            },
            None => {
                proof {
                    assert(preout + Seq::<PdscRefModel>::empty() =~= preout);
                    assert(out.deep_view() =~= s_flatten(groot, gf.take(k + 1)));
                }
            },
        }
        proof {
            k = k + 1;
        }
    }
    proof {
        assert(gf.take(gf.len() as int) =~= gf);
        assert(k == gf.len());
    }
    out
}

/// The combined count of references in the pack indices that were fetched.
pub open spec fn s_success_sum(fetched: Seq<Option<VidxModel>>) -> nat
    decreases fetched.len(),
{
    if fetched.len() == 0 {
        0
    } else {
        s_success_sum(fetched.drop_last()) + (match fetched.last() {
            Some(v) => v.pdsc_index.len(),
            None => 0,
        })
    }
}

/// Crawler robustness: however many fetches fail, the flat stream holds
/// the root's references and every reference of every index that was
/// fetched — exactly their combined count, never fewer.
pub proof fn lemma_flatten_robust(root: VidxModel, fetched: Seq<Option<VidxModel>>)
    ensures
        s_flatten(root, fetched).len() == root.pdsc_index.len() + s_success_sum(fetched),
    decreases fetched.len(),
{
    if fetched.len() > 0 {
        lemma_flatten_robust(root, fetched.drop_last());
    }
}

} // verus!
