//! What the engine reads of a model file's header: metadata values and the
//! list of tensors, as plain data.

use vstd::hash_map::StringHashMap;
use vstd::prelude::*;
use vstd::string::*;

verus! {

/// One metadata value under each reading the engine asks for. A reading that
/// the stored type does not have is `None`.
pub struct MetaValue {
    pub unsigned: Option<u64>,
    /// Bits of the value as an IEEE 754 single.
    pub real: Option<u32>,
    pub text: Option<String>,
    /// The truth value of a boolean.
    pub flag: Option<bool>,
    pub items: Option<Vec<MetaValue>>,
}

/// How a tensor's numbers are stored, as far as the engine tells formats apart.
#[derive(Debug, Clone, Copy, PartialEq, Eq, Structural)]
pub enum TensorType {
    F32,
    Q2K,
    Q3K,
    Q4K,
    Q5K,
    Q6K,
    Q4_0,
    Q5_1,
    Q8_0,
    IQ2XXS,
    IQ2XS,
    IQ3XXS,
    IQ4XS,
    Other,
}

/// One tensor of the file.
pub struct TensorInfo {
    pub name: String,
    pub ty: TensorType,
    /// The storage format's own name.
    pub format_name: String,
    pub dims: Vec<u64>,
    /// Where its data begins, from the start of the data section.
    pub offset: u64,
    /// Bytes of one row of `dims[0]` numbers, where the format has a layout.
    pub row_bytes: Option<u64>,
    /// Bytes of the whole tensor, where the format has a layout.
    pub byte_size: Option<u64>,
    pub n_elements: u64,
}

/// A model file's header.
pub struct Gguf {
    /// MetaValue by key.
    pub metadata: StringHashMap<MetaValue>,
    /// Tensor by name.
    pub tensors: StringHashMap<TensorInfo>,
    /// The model architecture's name.
    pub architecture: Option<String>,
    /// Where the data section begins in the file.
    pub data_offset: u64,
}

/// A key under the architecture's own prefix.
pub open spec fn arch_key(arch: Seq<char>, k: Seq<char>) -> Seq<char> {
    arch.push('.') + k
}

/// The contents of an optional string.
pub open spec fn text_view(t: Option<String>) -> Option<Seq<char>> {
    match t {
        Some(s) => Some(s@),
        None => None,
    }
}

impl Gguf {
    /// The value stored under `key`.
    pub open spec fn value(&self, key: Seq<char>) -> Option<MetaValue> {
        if self.metadata@.contains_key(key) {
            Some(self.metadata@[key])
        } else {
            None
        }
    }

    /// The value under `key`, read as an unsigned integer.
    pub open spec fn unsigned(&self, key: Seq<char>) -> Option<u64> {
        match self.value(key) {
            Some(v) => v.unsigned,
            None => None,
        }
    }

    /// The value under `key`, read as text.
    pub open spec fn text(&self, key: Seq<char>) -> Option<Seq<char>> {
        match self.value(key) {
            Some(v) => text_view(v.text),
            None => None,
        }
    }

    /// The value under `key`, read as a list.
    pub open spec fn items(&self, key: Seq<char>) -> Option<Seq<MetaValue>> {
        match self.value(key) {
            Some(v) => match v.items {
                Some(a) => Some(a@),
                None => None,
            },
            None => None,
        }
    }

    /// The architecture's name.
    pub open spec fn arch(&self) -> Option<Seq<char>> {
        text_view(self.architecture)
    }

    /// The value under `k` in the architecture's own namespace.
    pub open spec fn arch_value(&self, k: Seq<char>) -> Option<MetaValue> {
        match self.arch() {
            Some(a) => self.value(arch_key(a, k)),
            None => None,
        }
    }

    /// The value under `k` in the architecture's namespace, as an integer.
    pub open spec fn arch_unsigned(&self, k: Seq<char>) -> Option<u64> {
        match self.arch_value(k) {
            Some(v) => v.unsigned,
            None => None,
        }
    }

    /// The value under `k` in the architecture's namespace, as a real.
    pub open spec fn arch_real(&self, k: Seq<char>) -> Option<u32> {
        match self.arch_value(k) {
            Some(v) => v.real,
            None => None,
        }
    }

    /// Whether there is a tensor of that name.
    pub open spec fn has_tensor(&self, name: Seq<char>) -> bool {
        self.tensors@.contains_key(name)
    }

    /// A header with no metadata and no tensors.
    pub fn new(architecture: Option<String>, data_offset: u64) -> (g: Gguf)
        ensures
            g.metadata@ == Map::<Seq<char>, MetaValue>::empty(),
            g.tensors@ == Map::<Seq<char>, TensorInfo>::empty(),
            g.architecture == architecture,
            g.data_offset == data_offset,
    {
        Gguf {
            metadata: StringHashMap::new(),
            tensors: StringHashMap::new(),
            architecture,
            data_offset,
        }
    }

    /// Stores `value` under `key`.
    pub fn set(&mut self, key: String, value: MetaValue)
        ensures
            final(self).metadata@ == old(self).metadata@.insert(key@, value),
            final(self).tensors == old(self).tensors,
            final(self).architecture == old(self).architecture,
            final(self).data_offset == old(self).data_offset,
    {
        self.metadata.insert(key, value);
    }

    /// Lists a tensor under its name.
    pub fn add_tensor(&mut self, t: TensorInfo)
        ensures
            final(self).tensors@ == old(self).tensors@.insert(t.name@, t),
            final(self).metadata == old(self).metadata,
            final(self).architecture == old(self).architecture,
            final(self).data_offset == old(self).data_offset,
    {
        let name: String = t.name.clone();
        self.tensors.insert(name, t);
    }

    /// The tensor of that name.
    pub fn tensor(&self, name: &str) -> (r: Option<&TensorInfo>)
        ensures
            match r {
                Some(t) => self.has_tensor(name@) && *t == self.tensors@[name@],
                None => !self.has_tensor(name@),
            },
    {
        self.tensors.get(name)
    }

    /// Reads the value under `k` in the architecture's namespace.
    pub fn arch_meta(&self, k: &str) -> (r: Option<&MetaValue>)
        ensures
            match r {
                Some(v) => self.arch_value(k@) == Some(*v),
                None => self.arch_value(k@) is None,
            },
            // The key is the architecture's name, a dot and `k`.
            self.architecture matches Some(a) ==> {
                let key = a@ + seq!['.'] + k@;
                match r {
                    Some(v) => self.metadata@.contains_key(key) && *v == self.metadata@[key],
                    None => !self.metadata@.contains_key(key),
                }
            },
            self.architecture is None ==> r is None,
    {
        proof {
            if self.architecture is Some {
                let a = self.architecture->0@;
                assert(arch_key(a, k@) =~= a + seq!['.'] + k@);
            }
        }
        match &self.architecture {
            Some(a) => {
                let mut key: String = a.clone();
                key.push('.');
                key.append(k);
                self.metadata.get(key.as_str())
            },
            None => None,
        }
    }

    /// Reads the value under `key` as an unsigned integer.
    pub fn get_unsigned(&self, key: &str) -> (r: Option<u64>)
        ensures
            r == self.unsigned(key@),
            r is Some ==> self.metadata@.contains_key(key@),
            self.metadata@.contains_key(key@) ==> r == self.metadata@[key@].unsigned,
    {
        match self.metadata.get(key) {
            Some(v) => v.unsigned,
            None => None,
        }
    }

    /// Reads the value under `key` as text.
    pub fn get_text(&self, key: &str) -> (r: Option<&str>)
        ensures
            match r {
                Some(s) => self.text(key@) == Some(s@),
                None => self.text(key@) is None,
            },
            match r {
                Some(s) => {
                    &&& self.metadata@.contains_key(key@)
                    &&& self.metadata@[key@].text matches Some(x) && x@ == s@
                },
                None => self.metadata@.contains_key(key@) ==> self.metadata@[key@].text is None,
            },
    {
        match self.metadata.get(key) {
            Some(v) => match &v.text {
                Some(s) => Some(s.as_str()),
                None => None,
            },
            None => None,
        }
    }

    /// Reads the value under `key` as a list.
    pub fn get_items(&self, key: &str) -> (r: Option<&Vec<MetaValue>>)
        ensures
            match r {
                Some(a) => self.items(key@) == Some(a@),
                None => self.items(key@) is None,
            },
            match r {
                Some(a) => {
                    &&& self.metadata@.contains_key(key@)
                    &&& self.metadata@[key@].items matches Some(x) && x@ == a@
                },
                None => self.metadata@.contains_key(key@) ==> self.metadata@[key@].items is None,
            },
    {
        match self.metadata.get(key) {
            Some(v) => match &v.items {
                Some(a) => Some(a),
                None => None,
            },
            None => None,
        }
    }
}

} // verus!
