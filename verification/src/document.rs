//! The persisted document of saved collections and requests, and the
//! update operations on it.
//!
//! Text is modeled as bytes throughout the library; the surrounding
//! application converts to and from `String` at its edge.

use vstd::prelude::*;

verus! {

/// One HTTP header of a saved or outbound request.
pub struct Header {
    pub key: Vec<u8>,
    pub value: Vec<u8>,
}

/// One saved request parameter.
pub struct Parameter {
    pub parameter_type: Vec<u8>,
    pub key: Vec<u8>,
    pub value: Vec<u8>,
}

/// A saved request definition.
pub struct Api {
    pub id: Vec<u8>,
    pub name: Vec<u8>,
    pub method: Vec<u8>,
    pub url: Vec<u8>,
    pub headers: Vec<Header>,
    pub parameters: Vec<Parameter>,
    pub body: Vec<u8>,
}

/// A named group of saved requests.
pub struct Collection {
    pub id: Vec<u8>,
    pub name: Vec<u8>,
    pub apis: Vec<Api>,
}

/// The whole persisted document: collections of saved requests, plus a
/// top-level list of saved requests outside any collection.
pub struct AppData {
    pub collections: Vec<Collection>,
    pub apis: Vec<Api>,
}

/// Error raised by document operations.
#[derive(Clone, Copy, PartialEq, Eq, Structural, Debug)]
pub enum DocumentError {
    /// No saved request carries the requested id.
    NotFound,
    /// The persisted bytes do not parse as a document.
    Malformed,
}

#[verifier::ext_equal]
pub struct HeaderV {
    pub key: Seq<u8>,
    pub value: Seq<u8>,
}

#[verifier::ext_equal]
pub struct ParameterV {
    pub parameter_type: Seq<u8>,
    pub key: Seq<u8>,
    pub value: Seq<u8>,
}

#[verifier::ext_equal]
pub struct ApiV {
    pub id: Seq<u8>,
    pub name: Seq<u8>,
    pub method: Seq<u8>,
    pub url: Seq<u8>,
    pub headers: Seq<HeaderV>,
    pub parameters: Seq<ParameterV>,
    pub body: Seq<u8>,
}

#[verifier::ext_equal]
pub struct CollectionV {
    pub id: Seq<u8>,
    pub name: Seq<u8>,
    pub apis: Seq<ApiV>,
}

#[verifier::ext_equal]
pub struct AppDataV {
    pub collections: Seq<CollectionV>,
    pub apis: Seq<ApiV>,
}

/// Deep view of a header list.
pub open spec fn headers_view(hs: Seq<Header>) -> Seq<HeaderV> {
    hs.map_values(|h: Header| h@)
}

/// Deep view of a parameter list.
pub open spec fn parameters_view(ps: Seq<Parameter>) -> Seq<ParameterV> {
    ps.map_values(|p: Parameter| p@)
}

/// Deep view of a saved-request list.
pub open spec fn apis_view(avs: Seq<Api>) -> Seq<ApiV> {
    avs.map_values(|a: Api| a@)
}

/// Deep view of a collection list.
pub open spec fn collections_view(cs: Seq<Collection>) -> Seq<CollectionV> {
    cs.map_values(|c: Collection| c@)
}

impl View for Header {
    type V = HeaderV;

    open spec fn view(&self) -> HeaderV {
        HeaderV { key: self.key@, value: self.value@ }
    }
}

impl View for Parameter {
    type V = ParameterV;

    open spec fn view(&self) -> ParameterV {
        ParameterV { parameter_type: self.parameter_type@, key: self.key@, value: self.value@ }
    }
}

impl View for Api {
    type V = ApiV;

    open spec fn view(&self) -> ApiV {
        ApiV {
            id: self.id@,
            name: self.name@,
            method: self.method@,
            url: self.url@,
            headers: headers_view(self.headers@),
            parameters: parameters_view(self.parameters@),
            body: self.body@,
        }
    }
}

impl View for Collection {
    type V = CollectionV;

    open spec fn view(&self) -> CollectionV {
        CollectionV { id: self.id@, name: self.name@, apis: apis_view(self.apis@) }
    }
}

impl View for AppData {
    type V = AppDataV;

    open spec fn view(&self) -> AppDataV {
        AppDataV { collections: collections_view(self.collections@), apis: apis_view(self.apis@) }
    }
}

/// Index of the first saved request in `apis` whose id is `id`.
pub open spec fn first_api_match(apis: Seq<ApiV>, id: Seq<u8>) -> Option<int>
    decreases apis.len(),
{
    if apis.len() == 0 {
        None
    } else if apis[0].id == id {
        Some(0)
    } else {
        match first_api_match(apis.drop_first(), id) {
            Some(i) => Some(i + 1),
            None => None,
        }
    }
}

/// First collection (in collection order) holding a request with id
/// `id`, paired with the index of the first such request in it.
pub open spec fn first_collection_match(cs: Seq<CollectionV>, id: Seq<u8>) -> Option<(int, int)>
    decreases cs.len(),
{
    if cs.len() == 0 {
        None
    } else {
        match first_api_match(cs[0].apis, id) {
            Some(j) => Some((0, j)),
            None => match first_collection_match(cs.drop_first(), id) {
                Some(cj) => Some((cj.0 + 1, cj.1)),
                None => None,
            },
        }
    }
}

/// What a successful upsert produces: the first request whose id equals
/// `a.id` — searching collections in order, then each collection's
/// request list in order, then the top-level list — replaced by `a`,
/// everything else untouched.  `None` when no request has that id.
pub open spec fn upsert_doc(d: AppDataV, a: ApiV) -> Option<AppDataV> {
    match first_collection_match(d.collections, a.id) {
        Some(cj) => Some(
            AppDataV {
                collections: d.collections.update(
                    cj.0,
                    CollectionV {
                        id: d.collections[cj.0].id,
                        name: d.collections[cj.0].name,
                        apis: d.collections[cj.0].apis.update(cj.1, a),
                    },
                ),
                apis: d.apis,
            },
        ),
        None => match first_api_match(d.apis, a.id) {
            Some(i) => Some(AppDataV { collections: d.collections, apis: d.apis.update(i, a) }),
            None => None,
        },
    }
}

/// `first_api_match` finds the first entry with the given id: the entry
/// it names has that id, and nothing before it does; when it finds
/// nothing, no entry has that id.
pub proof fn lemma_first_api_match_characterization(apis: Seq<ApiV>, id: Seq<u8>)
    ensures
        match first_api_match(apis, id) {
            Some(i) => 0 <= i < apis.len() && apis[i].id == id && (forall|k: int|
                0 <= k < i ==> apis[k].id != id),
            None => forall|k: int| 0 <= k < apis.len() ==> apis[k].id != id,
        },
    decreases apis.len(),
{
    if apis.len() > 0 && apis[0].id != id {
        lemma_first_api_match_characterization(apis.drop_first(), id);
        assert forall|k: int| 1 <= k < apis.len() implies apis.drop_first()[k - 1] == apis[k] by {}
    }
}

/// `first_collection_match` respects the search order: the collection it
/// names holds a matching request, its earlier requests do not match,
/// and no earlier collection holds any match; when it finds nothing, no
/// collection holds a matching request.
pub proof fn lemma_first_collection_match_characterization(cs: Seq<CollectionV>, id: Seq<u8>)
    ensures
        match first_collection_match(cs, id) {
            Some(cj) => 0 <= cj.0 < cs.len() && 0 <= cj.1 < cs[cj.0].apis.len()
                && cs[cj.0].apis[cj.1].id == id && (forall|k: int|
                0 <= k < cj.1 ==> cs[cj.0].apis[k].id != id) && (forall|c: int, k: int|
                0 <= c < cj.0 && 0 <= k < cs[c].apis.len() ==> cs[c].apis[k].id != id),
            None => forall|c: int, k: int|
                0 <= c < cs.len() && 0 <= k < cs[c].apis.len() ==> cs[c].apis[k].id != id,
        },
    decreases cs.len(),
{
    if cs.len() > 0 {
        lemma_first_api_match_characterization(cs[0].apis, id);
        if first_api_match(cs[0].apis, id) is None {
            lemma_first_collection_match_characterization(cs.drop_first(), id);
            assert forall|c: int| 1 <= c < cs.len() implies cs.drop_first()[c - 1] == cs[c] by {}
        }
    }
}

/// A successful upsert touches exactly one entry: the first match in
/// search order — collections in order, requests within the collection
/// in order, then the top-level list — is replaced by `a`.  Every
/// other saved request, every collection's id and name, and (when the
/// match lies in a collection) the whole top-level list are untouched.
/// When no saved request has the id, upsert yields nothing.
pub proof fn lemma_upsert_frame(d: AppDataV, a: ApiV)
    ensures
        match first_collection_match(d.collections, a.id) {
            Some(cj) => {
                let d2 = upsert_doc(d, a).unwrap();
                &&& upsert_doc(d, a) is Some
                &&& d2.apis == d.apis
                &&& d2.collections.len() == d.collections.len()
                &&& forall|c: int|
                    0 <= c < d.collections.len() && c != cj.0 ==> d2.collections[c]
                        == d.collections[c]
                &&& d2.collections[cj.0].id == d.collections[cj.0].id
                &&& d2.collections[cj.0].name == d.collections[cj.0].name
                &&& d2.collections[cj.0].apis.len() == d.collections[cj.0].apis.len()
                &&& forall|k: int|
                    0 <= k < d.collections[cj.0].apis.len() && k != cj.1
                        ==> d2.collections[cj.0].apis[k] == d.collections[cj.0].apis[k]
                &&& d2.collections[cj.0].apis[cj.1] == a
                &&& d.collections[cj.0].apis[cj.1].id == a.id
            },
            None => match first_api_match(d.apis, a.id) {
                Some(i) => {
                    let d2 = upsert_doc(d, a).unwrap();
                    &&& upsert_doc(d, a) is Some
                    &&& d2.collections == d.collections
                    &&& d2.apis.len() == d.apis.len()
                    &&& forall|k: int|
                        0 <= k < d.apis.len() && k != i ==> d2.apis[k] == d.apis[k]
                    &&& d2.apis[i] == a
                    &&& d.apis[i].id == a.id
                },
                None => upsert_doc(d, a) is None,
            },
        },
{
    lemma_first_collection_match_characterization(d.collections, a.id);
    lemma_first_api_match_characterization(d.apis, a.id);
}

/// An empty document: no collections, no top-level requests.
pub fn empty_document() -> (d: AppData)
    ensures
        d@.collections.len() == 0,
        d@.apis.len() == 0,
{
    AppData { collections: Vec::new(), apis: Vec::new() }
}

/// Compare two byte strings.
pub fn bytes_eq(a: &Vec<u8>, b: &Vec<u8>) -> (r: bool)
    ensures
        r <==> a@ == b@,
{
    if a.len() != b.len() {
        return false;
    }
    let mut i: usize = 0;
    while i < a.len()
        invariant
            a@.len() == b@.len(),
            i <= a@.len(),
            forall|k: int| 0 <= k < i ==> a@[k] == b@[k],
        decreases a@.len() - i,
    {
        if a[i] != b[i] {
            return false;
        }
        i = i + 1;
    }
    proof {
        assert(a@ =~= b@);
    }
    true
}

/// Index of the first request in `apis` whose id is `id`, executably.
fn find_api_index(apis: &Vec<Api>, id: &Vec<u8>) -> (r: Option<usize>)
    ensures
        match r {
            Some(i) => first_api_match(apis_view(apis@), id@) == Some(i as int),
            None => first_api_match(apis_view(apis@), id@) is None,
        },
{
    let ghost av = apis_view(apis@);
    proof {
        lemma_first_api_match_characterization(av, id@);
    }
    let mut i: usize = 0;
    while i < apis.len()
        invariant
            i <= apis.len(),
            av == apis_view(apis@),
            forall|k: int| 0 <= k < i ==> av[k].id != id@,
            match first_api_match(av, id@) {
                Some(j) => 0 <= j < av.len() && av[j].id == id@ && (forall|k: int|
                    0 <= k < j ==> av[k].id != id@),
                None => forall|k: int| 0 <= k < av.len() ==> av[k].id != id@,
            },
        decreases apis.len() - i,
    {
        if bytes_eq(&apis[i].id, id) {
            proof {
                assert(av[i as int] == (apis@[i as int])@);
                assert(av[i as int].id == id@);
            }
            return Some(i);
        }
        i = i + 1;
    }
    None
}

/// Replace the first saved request whose id equals `request.id` —
/// searching collections in order, then the top-level list — with
/// `request`.  Fails with `NotFound`, leaving the document unmodified,
/// when no saved request has that id.
pub fn upsert_request_in_document(data: &mut AppData, request: Api) -> (r: Result<
    (),
    DocumentError,
>)
    ensures
        match r {
            Ok(_) => upsert_doc(old(data)@, request@) == Some(final(data)@),
            Err(e) => e == DocumentError::NotFound && upsert_doc(old(data)@, request@) is None
                && final(data)@ == old(data)@,
        },
{
    let ghost dv = old(data)@;
    let ghost rv = request@;
    proof {
        lemma_first_collection_match_characterization(dv.collections, rv.id);
    }
    let mut ci: usize = 0;
    while ci < data.collections.len()
        invariant
            ci <= data.collections.len(),
            *data == *old(data),
            dv == old(data)@,
            rv == request@,
            forall|c: int, k: int|
                0 <= c < ci && 0 <= k < dv.collections[c].apis.len()
                    ==> dv.collections[c].apis[k].id != rv.id,
            match first_collection_match(dv.collections, rv.id) {
                Some(cj) => 0 <= cj.0 < dv.collections.len() && 0 <= cj.1
                    < dv.collections[cj.0].apis.len() && dv.collections[cj.0].apis[cj.1].id == rv.id
                    && (forall|k: int|
                    0 <= k < cj.1 ==> dv.collections[cj.0].apis[k].id != rv.id) && (forall|
                    c: int,
                    k: int,
                |
                    0 <= c < cj.0 && 0 <= k < dv.collections[c].apis.len()
                        ==> dv.collections[c].apis[k].id != rv.id),
                None => forall|c: int, k: int|
                    0 <= c < dv.collections.len() && 0 <= k < dv.collections[c].apis.len()
                        ==> dv.collections[c].apis[k].id != rv.id,
            },
        decreases data.collections.len() - ci,
    {
        let found = find_api_index(&data.collections[ci].apis, &request.id);
        match found {
            Some(aj) => {
                proof {
                    let cv = dv.collections[ci as int];
                    lemma_first_api_match_characterization(cv.apis, rv.id);
                    assert(first_collection_match(dv.collections, rv.id) == Some(
                        (ci as int, aj as int),
                    ));
                }
                let c = &mut data.collections[ci];
                let a = &mut c.apis[aj];
                *a = request;
                proof {
                    assert(data@.collections =~~= dv.collections.update(
                        ci as int,
                        CollectionV {
                            id: dv.collections[ci as int].id,
                            name: dv.collections[ci as int].name,
                            apis: dv.collections[ci as int].apis.update(aj as int, rv),
                        },
                    ));
                    assert(data@ =~~= upsert_doc(dv, rv).unwrap());
                }
                return Ok(());
            },
            None => {
                proof {
                    assert(dv.collections[ci as int] == (data.collections@[ci as int])@);
                    lemma_first_api_match_characterization(dv.collections[ci as int].apis, rv.id);
                }
            },
        }
        ci = ci + 1;
    }
    proof {
        assert(first_collection_match(dv.collections, rv.id) is None);
    }
    let found = find_api_index(&data.apis, &request.id);
    proof {
        assert(apis_view(data.apis@) == dv.apis);
        lemma_first_api_match_characterization(dv.apis, rv.id);
    }
    match found {
        Some(i) => {
            let a = &mut data.apis[i];
            *a = request;
            proof {
                assert(data@.apis =~~= dv.apis.update(i as int, rv));
                assert(data@ =~~= upsert_doc(dv, rv).unwrap());
            }
            Ok(())
        },
        None => Err(DocumentError::NotFound),
    }
}

} // verus!
