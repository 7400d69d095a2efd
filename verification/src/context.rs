use vstd::prelude::*;
use crate::json::{
    render_parameter_map, parse_structured, lemma_parse_render_map, text_obj, sp_doc,
};
use crate::meta::{Method, Version, RequestMetadata};
use crate::params::{ParameterMap, BindFailure, pm_lookup, pairs_model};
use crate::peer::{PeerAddr, PeerIp, PeerInfo, PeerFailure};
use crate::shape::{
    bind_spec, shape_model, record_model, FieldKind, FieldValue, FieldModel, DecodeFailure,
};
use crate::text::{utf8_to_string, str_to_chars};

verus! {

/// Failure of one chunk of the body stream. Draining drops such chunks
/// silently; the buffer may then be shorter than the stream promised.
#[derive(Clone, Copy, PartialEq, Eq, Structural, Debug)]
pub enum ChunkFailure {
    Failed,
}

/// Bytes of the drained body: the failed chunks dropped, the others
/// concatenated in stream order.
pub open spec fn drained_bytes(s: Seq<Result<Vec<u8>, ChunkFailure>>) -> Seq<u8>
    decreases s.len(),
{
    if s.len() == 0 {
        Seq::empty()
    } else {
        let head: Seq<u8> = match s[0] {
            Ok(v) => v@,
            Err(_) => Seq::empty(),
        };
        head + drained_bytes(s.drop_first())
    }
}

proof fn lemma_drained_push(s: Seq<Result<Vec<u8>, ChunkFailure>>, c: Result<Vec<u8>, ChunkFailure>)
    ensures
        drained_bytes(s.push(c)) =~= drained_bytes(s) + (match c {
            Ok(v) => v@,
            Err(_) => Seq::<u8>::empty()
        }),
    decreases s.len(),
{
    let head: Seq<u8> = match c {
        Ok(v) => v@,
        Err(_) => Seq::empty(),
    };
    if s.len() == 0 {
        assert(s.push(c).drop_first() =~= Seq::<Result<Vec<u8>, ChunkFailure>>::empty());
        assert(s.push(c)[0] == c);
        assert(drained_bytes(Seq::<Result<Vec<u8>, ChunkFailure>>::empty())
            =~= Seq::<u8>::empty());
        assert(drained_bytes(s.push(c)) =~= head + Seq::<u8>::empty());
    } else {
        assert(s.push(c)[0] == s[0]);
        assert(s.push(c).drop_first() =~= s.drop_first().push(c));
        lemma_drained_push(s.drop_first(), c);
        let h0: Seq<u8> = match s[0] {
            Ok(v) => v@,
            Err(_) => Seq::empty(),
        };
        assert(drained_bytes(s.push(c)) =~= h0 + drained_bytes(s.drop_first().push(c)));
        assert(drained_bytes(s) =~= h0 + drained_bytes(s.drop_first()));
    }
}

fn drain_chunks(chunks: &Vec<Result<Vec<u8>, ChunkFailure>>) -> (r: Vec<u8>)
    ensures
        r@ == drained_bytes(chunks@),
{
    let mut out: Vec<u8> = Vec::new();
    let n: usize = chunks.len();
    let mut i: usize = 0;
    proof {
        assert(chunks@.subrange(0, 0) =~= Seq::<Result<Vec<u8>, ChunkFailure>>::empty());
        assert(out@ =~= drained_bytes(chunks@.subrange(0, 0)));
    }
    while i < n
        invariant
            n == chunks@.len(),
            0 <= i <= n,
            out@ == drained_bytes(chunks@.subrange(0, i as int)),
        decreases n - i,
    {
        match &chunks[i] {
            Ok(v) => {
                let m: usize = v.len();
                let mut j: usize = 0;
                while j < m
                    invariant
                        n == chunks@.len(),
                        0 <= i < n,
                        m == v@.len(),
                        0 <= j <= m,
                        out@ == drained_bytes(chunks@.subrange(0, i as int)) + v@.subrange(
                            0,
                            j as int,
                        ),
                    decreases m - j,
                {
                    out.push(v[j]);
                    proof {
                        assert(v@.subrange(0, j + 1) =~= v@.subrange(0, j as int).push(
                            v@[j as int],
                        ));
                        assert(out@ =~= drained_bytes(chunks@.subrange(0, i as int))
                            + v@.subrange(0, j + 1));
                    }
                    j += 1;
                }
                proof {
                    assert(v@.subrange(0, m as int) =~= v@);
                }
            },
            Err(_) => {},
        }
        proof {
            assert(chunks@.subrange(0, i + 1) =~= chunks@.subrange(0, i as int).push(
                chunks@[i as int],
            ));
            lemma_drained_push(chunks@.subrange(0, i as int), chunks@[i as int]);
            assert(out@ =~= drained_bytes(chunks@.subrange(0, i + 1)));
        }
        i += 1;
    }
    proof {
        assert(chunks@.subrange(0, n as int) =~= chunks@);
    }
    out
}

/// Lenient binder fold shared by both constructors: a successful binding
/// becomes the map, a binder failure becomes the empty map.
fn fold_binding(outcome: Result<Vec<(String, String)>, BindFailure>) -> (r: ParameterMap)
    ensures
        r.wf(),
        match outcome {
            Ok(pairs) => forall|k: Seq<char>|
                pm_lookup(r@, k) == pm_lookup(pairs_model(pairs@), k),
            Err(_) => r@ =~= Seq::<(Seq<char>, Seq<char>)>::empty(),
        },
{
    match outcome {
        Ok(pairs) => ParameterMap::from_pairs(pairs),
        Err(_) => ParameterMap::new(),
    }
}

/// Decode a parameter map into a target shape through the structured-text
/// bridge: render the map, parse it back, bind the document to the shape.
/// By the round-trip law the outcome is exactly `bind_spec` on the map
/// itself, every binding read as text.
pub fn decode_map_into(m: &ParameterMap, shape: &Vec<(String, FieldKind)>) -> (r: Result<
    Vec<(String, FieldValue)>,
    DecodeFailure,
>)
    ensures
        match r {
            Ok(rec) => bind_spec(text_obj(m@), shape_model(shape@)) == Ok::<
                Seq<(Seq<char>, FieldModel)>,
                DecodeFailure,
            >(record_model(rec@)),
            Err(e) => bind_spec(text_obj(m@), shape_model(shape@)) == Err::<
                Seq<(Seq<char>, FieldModel)>,
                DecodeFailure,
            >(e),
        },
{
    let text = render_parameter_map(m);
    proof {
        lemma_parse_render_map(m@);
    }
    match parse_structured(&text) {
        Some(obj) => crate::shape::bind_shape(&obj, shape),
        None => {
            proof {
                assert(false);
            }
            Err(DecodeFailure::Syntax)
        },
    }
}

/// What a typed body decode returns for given body bytes and a shape: the
/// body must be text, the text a structured document, the document bound to
/// the shape under the strict policy.
pub open spec fn payload_spec(bytes: Seq<u8>, shp: Seq<(Seq<char>, FieldKind)>) -> Result<
    Seq<(Seq<char>, FieldModel)>,
    DecodeFailure,
> {
    if !vstd::utf8::valid_utf8(bytes) {
        Err(DecodeFailure::NotText)
    } else {
        match sp_doc(vstd::utf8::decode_utf8(bytes)) {
            None => Err(DecodeFailure::Syntax),
            Some(o) => bind_spec(o, shp),
        }
    }
}

/// Generic wrapper for an already-structured response value: the passthrough
/// helper handlers use as a shorthand.
pub struct Json<T>(pub T);

/// The full, body-carrying request context: metadata, both parameter maps,
/// peer information, the drained body, and the application state handle.
pub struct Context<InnerState> {
    pub params_map: ParameterMap,
    pub query_map: ParameterMap,
    pub peer: PeerInfo,
    pub bytes: Vec<u8>,
    pub inner_state: InnerState,
    pub metadata: RequestMetadata,
}

impl<InnerState> Context<InnerState> {
    /// Construction protocol for the full context. Metadata and the state
    /// handle are taken as already captured; each binder outcome degrades
    /// leniently to an empty map, an unresolved peer is kept as such for the
    /// accessors' fallback, and the body chunks are drained with failed
    /// chunks dropped. Construction itself never fails.
    pub fn from_request(
        metadata: RequestMetadata,
        inner_state: InnerState,
        path_outcome: Result<Vec<(String, String)>, BindFailure>,
        peer_outcome: Result<PeerAddr, PeerFailure>,
        query_outcome: Result<Vec<(String, String)>, BindFailure>,
        chunks: Vec<Result<Vec<u8>, ChunkFailure>>,
    ) -> (r: Context<InnerState>)
        ensures
            r.metadata == metadata,
            r.inner_state == inner_state,
            r.params_map.wf(),
            r.query_map.wf(),
            match path_outcome {
                Ok(pairs) => forall|k: Seq<char>|
                    pm_lookup(r.params_map@, k) == pm_lookup(pairs_model(pairs@), k),
                Err(_) => r.params_map@ =~= Seq::<(Seq<char>, Seq<char>)>::empty(),
            },
            match query_outcome {
                Ok(pairs) => forall|k: Seq<char>|
                    pm_lookup(r.query_map@, k) == pm_lookup(pairs_model(pairs@), k),
                Err(_) => r.query_map@ =~= Seq::<(Seq<char>, Seq<char>)>::empty(),
            },
            r.peer == (match peer_outcome {
                Ok(a) => PeerInfo::Resolved(a),
                Err(_) => PeerInfo::Unresolved,
            }),
            r.bytes@ == drained_bytes(chunks@),
    {
        let params_map = fold_binding(path_outcome);
        let query_map = fold_binding(query_outcome);
        let peer = match peer_outcome {
            Ok(a) => PeerInfo::Resolved(a),
            Err(_) => PeerInfo::Unresolved,
        };
        let bytes = drain_chunks(&chunks);
        Context { params_map, query_map, peer, bytes, inner_state, metadata }
    }

    pub fn headers(&self) -> (r: &Vec<(String, String)>)
        ensures
            *r == self.metadata.headers,
    {
        &self.metadata.headers
    }

    pub fn method(&self) -> (r: &Method)
        ensures
            *r == self.metadata.method,
    {
        &self.metadata.method
    }

    pub fn version(&self) -> (r: &Version)
        ensures
            *r == self.metadata.version,
    {
        &self.metadata.version
    }

    pub fn uri(&self) -> (r: &String)
        ensures
            *r == self.metadata.uri,
    {
        &self.metadata.uri
    }

    /// Peer address, or the fixed fallback when resolution failed.
    pub fn addr(&self) -> (r: PeerAddr)
        ensures
            r == self.peer.effective_addr(),
    {
        self.peer.addr()
    }

    /// Peer IP, or the fallback's IP when resolution failed.
    pub fn ip(&self) -> (r: PeerIp)
        ensures
            r == self.peer.effective_addr().ip,
    {
        self.addr().ip
    }

    /// The body decoded as text; fails exactly when the bytes are not text.
    pub fn body(&self) -> (r: Option<String>)
        ensures
            r is Some <==> vstd::utf8::valid_utf8(self.bytes@),
            r matches Some(s) ==> s@ == vstd::utf8::decode_utf8(self.bytes@),
    {
        utf8_to_string(&self.bytes)
    }

    pub fn bytes(&self) -> (r: &Vec<u8>)
        ensures
            *r == self.bytes,
    {
        &self.bytes
    }

    pub fn state(&self) -> (r: &InnerState)
        ensures
            *r == self.inner_state,
    {
        &self.inner_state
    }

    /// Path parameter by name; the empty string when the name is unbound.
    pub fn params(&self, key: &str) -> (r: String)
        ensures
            r@ == (match pm_lookup(self.params_map@, key@) {
                Some(v) => v,
                None => Seq::<char>::empty(),
            }),
    {
        let k: String = key.to_owned();
        match self.params_map.get(&k) {
            Some(v) => v,
            None => String::new(),
        }
    }

    pub fn all_params(&self) -> (r: &ParameterMap)
        ensures
            *r == self.params_map,
    {
        &self.params_map
    }

    /// Query parameter by name; the empty string when the name is unbound.
    pub fn query(&self, key: &str) -> (r: String)
        ensures
            r@ == (match pm_lookup(self.query_map@, key@) {
                Some(v) => v,
                None => Seq::<char>::empty(),
            }),
    {
        let k: String = key.to_owned();
        match self.query_map.get(&k) {
            Some(v) => v,
            None => String::new(),
        }
    }

    pub fn all_query(&self) -> (r: &ParameterMap)
        ensures
            *r == self.query_map,
    {
        &self.query_map
    }

    /// Typed extraction of the path parameters into a shape.
    pub fn parse_params(&self, shape: &Vec<(String, FieldKind)>) -> (r: Result<
        Vec<(String, FieldValue)>,
        DecodeFailure,
    >)
        ensures
            match r {
                Ok(rec) => bind_spec(text_obj(self.params_map@), shape_model(shape@)) == Ok::<
                    Seq<(Seq<char>, FieldModel)>,
                    DecodeFailure,
                >(record_model(rec@)),
                Err(e) => bind_spec(text_obj(self.params_map@), shape_model(shape@)) == Err::<
                    Seq<(Seq<char>, FieldModel)>,
                    DecodeFailure,
                >(e),
            },
    {
        decode_map_into(&self.params_map, shape)
    }

    /// Typed extraction of the query parameters into a shape.
    pub fn parse_query(&self, shape: &Vec<(String, FieldKind)>) -> (r: Result<
        Vec<(String, FieldValue)>,
        DecodeFailure,
    >)
        ensures
            match r {
                Ok(rec) => bind_spec(text_obj(self.query_map@), shape_model(shape@)) == Ok::<
                    Seq<(Seq<char>, FieldModel)>,
                    DecodeFailure,
                >(record_model(rec@)),
                Err(e) => bind_spec(text_obj(self.query_map@), shape_model(shape@)) == Err::<
                    Seq<(Seq<char>, FieldModel)>,
                    DecodeFailure,
                >(e),
            },
    {
        decode_map_into(&self.query_map, shape)
    }

    /// Typed extraction of the body into a shape, under the strict policy:
    /// any mismatch is surfaced, never papered over with a default.
    pub fn payload(&self, shape: &Vec<(String, FieldKind)>) -> (r: Result<
        Vec<(String, FieldValue)>,
        DecodeFailure,
    >)
        ensures
            match r {
                Ok(rec) => payload_spec(self.bytes@, shape_model(shape@)) == Ok::<
                    Seq<(Seq<char>, FieldModel)>,
                    DecodeFailure,
                >(record_model(rec@)),
                Err(e) => payload_spec(self.bytes@, shape_model(shape@)) == Err::<
                    Seq<(Seq<char>, FieldModel)>,
                    DecodeFailure,
                >(e),
            },
    {
        match utf8_to_string(&self.bytes) {
            None => Err(DecodeFailure::NotText),
            Some(s) => {
                let chars = str_to_chars(s.as_str());
                match parse_structured(&chars) {
                    None => Err(DecodeFailure::Syntax),
                    Some(obj) => crate::shape::bind_shape(&obj, shape),
                }
            },
        }
    }

    /// Wrap an already-structured value as a structured response body.
    pub fn json<T>(&self, payload: T) -> (r: Json<T>)
        ensures
            r.0 == payload,
    {
        Json(payload)
    }

    /// Trivial passthrough for a plain text response.
    pub fn send<'a>(value: &'a str) -> (r: &'a str)
        ensures
            r@ == value@,
    {
        value
    }
}

/// The metadata-only request context: everything `Context` holds except the
/// body. Head extraction never touches the body by construction.
pub struct ContextPart<InnerState> {
    pub params_map: ParameterMap,
    pub query_map: ParameterMap,
    pub peer: PeerInfo,
    pub inner_state: InnerState,
    pub metadata: RequestMetadata,
}

impl<InnerState> ContextPart<InnerState> {
    /// Construction protocol for the head context: as `Context::from_request`
    /// without the body-draining step.
    pub fn from_request_parts(
        metadata: RequestMetadata,
        inner_state: InnerState,
        path_outcome: Result<Vec<(String, String)>, BindFailure>,
        peer_outcome: Result<PeerAddr, PeerFailure>,
        query_outcome: Result<Vec<(String, String)>, BindFailure>,
    ) -> (r: ContextPart<InnerState>)
        ensures
            r.metadata == metadata,
            r.inner_state == inner_state,
            r.params_map.wf(),
            r.query_map.wf(),
            match path_outcome {
                Ok(pairs) => forall|k: Seq<char>|
                    pm_lookup(r.params_map@, k) == pm_lookup(pairs_model(pairs@), k),
                Err(_) => r.params_map@ =~= Seq::<(Seq<char>, Seq<char>)>::empty(),
            },
            match query_outcome {
                Ok(pairs) => forall|k: Seq<char>|
                    pm_lookup(r.query_map@, k) == pm_lookup(pairs_model(pairs@), k),
                Err(_) => r.query_map@ =~= Seq::<(Seq<char>, Seq<char>)>::empty(),
            },
            r.peer == (match peer_outcome {
                Ok(a) => PeerInfo::Resolved(a),
                Err(_) => PeerInfo::Unresolved,
            }),
    {
        let params_map = fold_binding(path_outcome);
        let query_map = fold_binding(query_outcome);
        let peer = match peer_outcome {
            Ok(a) => PeerInfo::Resolved(a),
            Err(_) => PeerInfo::Unresolved,
        };
        ContextPart { params_map, query_map, peer, inner_state, metadata }
    }

    pub fn headers(&self) -> (r: &Vec<(String, String)>)
        ensures
            *r == self.metadata.headers,
    {
        &self.metadata.headers
    }

    pub fn method(&self) -> (r: &Method)
        ensures
            *r == self.metadata.method,
    {
        &self.metadata.method
    }

    pub fn version(&self) -> (r: &Version)
        ensures
            *r == self.metadata.version,
    {
        &self.metadata.version
    }

    pub fn uri(&self) -> (r: &String)
        ensures
            *r == self.metadata.uri,
    {
        &self.metadata.uri
    }

    pub fn state(&self) -> (r: &InnerState)
        ensures
            *r == self.inner_state,
    {
        &self.inner_state
    }

    /// Peer address, or the fixed fallback when resolution failed.
    pub fn addr(&self) -> (r: PeerAddr)
        ensures
            r == self.peer.effective_addr(),
    {
        self.peer.addr()
    }

    /// Peer IP, or the fallback's IP when resolution failed.
    pub fn ip(&self) -> (r: PeerIp)
        ensures
            r == self.peer.effective_addr().ip,
    {
        self.addr().ip
    }

    /// Path parameter by name; the empty string when the name is unbound.
    pub fn params(&self, key: &str) -> (r: String)
        ensures
            r@ == (match pm_lookup(self.params_map@, key@) {
                Some(v) => v,
                None => Seq::<char>::empty(),
            }),
    {
        let k: String = key.to_owned();
        match self.params_map.get(&k) {
            Some(v) => v,
            None => String::new(),
        }
    }

    pub fn all_params(&self) -> (r: &ParameterMap)
        ensures
            *r == self.params_map,
    {
        &self.params_map
    }

    /// Query parameter by name; the empty string when the name is unbound.
    pub fn query(&self, key: &str) -> (r: String)
        ensures
            r@ == (match pm_lookup(self.query_map@, key@) {
                Some(v) => v,
                None => Seq::<char>::empty(),
            }),
    {
        let k: String = key.to_owned();
        match self.query_map.get(&k) {
            Some(v) => v,
            None => String::new(),
        }
    }

    pub fn all_query(&self) -> (r: &ParameterMap)
        ensures
            *r == self.query_map,
    {
        &self.query_map
    }

    /// Typed extraction of the path parameters into a shape.
    pub fn parse_params(&self, shape: &Vec<(String, FieldKind)>) -> (r: Result<
        Vec<(String, FieldValue)>,
        DecodeFailure,
    >)
        ensures
            match r {
                Ok(rec) => bind_spec(text_obj(self.params_map@), shape_model(shape@)) == Ok::<
                    Seq<(Seq<char>, FieldModel)>,
                    DecodeFailure,
                >(record_model(rec@)),
                Err(e) => bind_spec(text_obj(self.params_map@), shape_model(shape@)) == Err::<
                    Seq<(Seq<char>, FieldModel)>,
                    DecodeFailure,
                >(e),
            },
    {
        decode_map_into(&self.params_map, shape)
    }

    /// Typed extraction of the query parameters into a shape.
    pub fn parse_query(&self, shape: &Vec<(String, FieldKind)>) -> (r: Result<
        Vec<(String, FieldValue)>,
        DecodeFailure,
    >)
        ensures
            match r {
                Ok(rec) => bind_spec(text_obj(self.query_map@), shape_model(shape@)) == Ok::<
                    Seq<(Seq<char>, FieldModel)>,
                    DecodeFailure,
                >(record_model(rec@)),
                Err(e) => bind_spec(text_obj(self.query_map@), shape_model(shape@)) == Err::<
                    Seq<(Seq<char>, FieldModel)>,
                    DecodeFailure,
                >(e),
            },
    {
        decode_map_into(&self.query_map, shape)
    }

    /// Wrap an already-structured value as a structured response body.
    pub fn json<T>(&self, payload: T) -> (r: Json<T>)
        ensures
            r.0 == payload,
    {
        Json(payload)
    }

    /// Trivial passthrough for a plain text response.
    pub fn send<'a>(value: &'a str) -> (r: &'a str)
        ensures
            r@ == value@,
    {
        value
    }
}

} // verus!
