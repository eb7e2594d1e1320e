//! The encodings loaded so far, each loaded once.
use vstd::prelude::*;

use std::sync::Arc;

use crate::encoding::{is_loading_of, load_error, LoadedEncoding, Vocabularies};
use crate::registry::{
    encoding_row, find_encoding, model_encoding, resolve_encoding_name_for_model,
    row_encoding_spec, row_spec, unknown_encoding_error, unknown_encoding_message,
    unmapped_model_message,
};

verus! {

/// Shares a loaded encoding.
///
/// Calls `Arc::clone`, which returns another pointer to the same value.
#[verifier::external_body]
fn share(a: &Arc<LoadedEncoding>) -> (r: Arc<LoadedEncoding>)
    ensures
        r == *a,
{
    Arc::clone(a)
}

/// The encodings loaded so far, one slot per encoding name, with the
/// vocabulary files they load from.
pub struct EncodingCache<'a> {
    vocabs: Vocabularies<'a>,
    slots: Vec<Option<Arc<LoadedEncoding>>>,
}

/// `enc` is what loading row `i` from these vocabularies gives.
pub open spec fn is_row_loading(enc: LoadedEncoding, i: int, vocabs: Vocabularies) -> bool {
    &&& load_error(row_spec(i), vocabs.file_bytes(row_spec(i).vocab)) is None
    &&& is_loading_of(enc, row_spec(i), vocabs.file_bytes(row_spec(i).vocab))
}

/// What `get_encoding` does to a cache for a name: an unknown name is an
/// error; a loaded encoding is returned as it is; otherwise the encoding is
/// loaded, kept and returned, or its load error is returned and nothing
/// kept.
pub open spec fn get_encoding_post(
    before: EncodingCache,
    name: Seq<char>,
    r: Result<LoadedEncoding, Seq<char>>,
    after: EncodingCache,
) -> bool {
    &&& after.vocabularies() == before.vocabularies()
    &&& match encoding_row(name) {
        None => r == Err::<LoadedEncoding, Seq<char>>(unknown_encoding_message(name)) && after.slots_view() == before.slots_view(),
        Some(i) => match before.cached(i) {
            Some(e) => r == Ok::<LoadedEncoding, Seq<char>>(e) && after.slots_view() == before.slots_view(),
            None => match load_error(row_spec(i), before.vocabularies().file_bytes(row_spec(i).vocab)) {
                Some(m) => r == Err::<LoadedEncoding, Seq<char>>(m) && after.slots_view() == before.slots_view(),
                None => r matches Ok(e) && is_row_loading(e, i, before.vocabularies())
                    && after.slots_view() == before.slots_view().update(i, Some(e)),
            },
        },
    }
}

/// What looking an encoding up by model name does to a cache: a model with
/// no encoding is an error and changes nothing; otherwise the lookup of its
/// encoding's name.
pub open spec fn model_lookup_post(
    before: EncodingCache,
    model: Seq<char>,
    r: Result<LoadedEncoding, Seq<char>>,
    after: EncodingCache,
) -> bool {
    match model_encoding(model) {
        None => r == Err::<LoadedEncoding, Seq<char>>(unmapped_model_message(model)) && after == before,
        Some(n) => get_encoding_post(before, n, r, after),
    }
}

/// A call's result, its `Arc` looked through.
pub open spec fn shared_view(r: Result<Arc<LoadedEncoding>, String>) -> Result<LoadedEncoding, Seq<char>> {
    match r {
        Ok(a) => Ok(*a),
        Err(e) => Err(e@),
    }
}

impl<'a> EncodingCache<'a> {
    /// The vocabulary files.
    pub closed spec fn vocabularies(&self) -> Vocabularies<'a> {
        self.vocabs
    }

    /// The encodings loaded so far, by row of the encoding table.
    pub closed spec fn slots_view(&self) -> Seq<Option<LoadedEncoding>> {
        self.slots@.map_values(|s: Option<Arc<LoadedEncoding>>| match s {
            Some(a) => Some(*a),
            None => None,
        })
    }

    /// The encoding loaded for row `i`, if any.
    pub open spec fn cached(&self, i: int) -> Option<LoadedEncoding> {
        self.slots_view()[i]
    }

    /// There is a slot for each encoding, and each loaded one is what
    /// loading its row gives.
    pub closed spec fn wf(&self) -> bool {
        &&& self.slots@.len() == 7
        &&& forall|i: int| 0 <= i < 7 ==> (#[trigger] self.slots_view()[i] matches Some(e) ==> is_row_loading(e, i, self.vocabs))
    }

    /// A valid cache has one slot per encoding, and each encoding it holds
    /// is what loading its row gives.
    pub proof fn lemma_slots(&self)
        requires
            self.wf(),
        ensures
            self.slots_view().len() == 7,
            forall|i: int| 0 <= i < 7 ==> (#[trigger] self.cached(i) matches Some(e) ==> is_row_loading(e, i, self.vocabularies())),
    {
    }

    /// A cache with nothing loaded.
    pub fn new(vocabs: Vocabularies<'a>) -> (c: EncodingCache<'a>)
        ensures
            c.wf(),
            c.vocabularies() == vocabs,
            forall|i: int| 0 <= i < 7 ==> c.cached(i) is None,
    {
        let mut slots: Vec<Option<Arc<LoadedEncoding>>> = Vec::new();
        let mut k: usize = 0;
        while k < 7
            invariant
                k <= 7,
                slots@.len() == k,
                forall|i: int| 0 <= i < k ==> slots@[i] is None,
            decreases 7 - k,
        {
            slots.push(None);
            k = k + 1;
        }
        EncodingCache { vocabs, slots }
    }

    /// The encoding named `name`, loaded on first use and shared after.
    pub fn get_encoding(&mut self, name: &str) -> (r: Result<Arc<LoadedEncoding>, String>)
        requires
            old(self).wf(),
        ensures
            final(self).wf(),
            get_encoding_post(*old(self), name@, shared_view(r), *final(self)),
    {
        let idx = match find_encoding(name) {
            Some(k) => k,
            None => {
                return Err(unknown_encoding_error(name));
            },
        };
        let ghost i = idx as int;
        let spec = row_encoding_spec(idx);
        match &self.slots[idx] {
            Some(existing) => {
                return Ok(share(existing));
            },
            None => {},
        }
        let loaded = match spec.load(&self.vocabs) {
            Ok(enc) => enc,
            Err(e) => {
                return Err(e);
            },
        };
        let shared = Arc::new(loaded);
        let ghost before = self.slots@;
        self.slots.set(idx, Some(share(&shared)));
        proof {
            assert(self.slots_view() =~= old(self).slots_view().update(i, Some(*shared)));
            assert(is_row_loading(*shared, i, self.vocabs));
            assert forall|j: int| 0 <= j < 7 implies (#[trigger] self.slots_view()[j] matches Some(e) ==> is_row_loading(e, j, self.vocabs)) by {
                if j != i {
                    assert(self.slots_view()[j] == old(self).slots_view()[j]);
                } else {
                    assert(self.slots_view()[j] == Some(*shared));
                }
            }
        }
        Ok(shared)
    }

    /// The encoding that the model named `model_name` uses.
    pub fn get_encoding_for_model(&mut self, model_name: &str) -> (r: Result<Arc<LoadedEncoding>, String>)
        requires
            old(self).wf(),
        ensures
            final(self).wf(),
            model_lookup_post(*old(self), model_name@, shared_view(r), *final(self)),
    {
        let name = match resolve_encoding_name_for_model(model_name) {
            Ok(n) => n,
            Err(e) => {
                return Err(e);
            },
        };
        self.get_encoding(name)
    }
}

} // verus!
