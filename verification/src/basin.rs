//! Basin: versioned data types and the buffer storage's decisions.
//!
//! A buffer is either held in memory or backed by a file; file-backed buffers
//! are read when first asked for. Reading files and the shared storage are
//! the application's part; what to read and what to keep is decided here.
use vstd::prelude::*;

verus! {

/// A look-through property: the prototype's value, or an own value.
pub enum Property<T> {
    Prototype,
    Overriden(T),
}

impl<T> Property<T> {
    /// The own value, or the prototype's.
    pub fn value_or<'a>(&'a self, prototype: &'a T) -> (r: &'a T)
        ensures
            r == (match self {
                Property::Prototype => prototype,
                Property::Overriden(v) => v,
            }),
    {
        match self {
            Property::Prototype => prototype,
            Property::Overriden(v) => v,
        }
    }
}

/// The example type whose versions are stored side by side.
pub struct Example {
    pub a: i32,
    pub b: u32,
    /// Present from version 0.2.0 on.
    pub c: String,
}

/// The builder of `Example`.
pub struct ExampleBuilder {
    a: i32,
    b: u32,
    c: String,
}

/// Version 0.1.0 of `Example`.
pub struct Example0_1_0 {
    pub a: i32,
    pub b: u32,
}

/// Version 0.2.0 of `Example`.
pub struct Example0_2_0 {
    pub a: i32,
    pub b: u32,
    pub c: String,
}

/// A stored version of `Example`.
pub trait ExampleVersion: Sized {
    /// The version holds the fields of `e` that it has.
    spec fn holds_fields_of(&self, e: Example) -> bool;

    fn from_example(e: Example) -> (r: Self)
        ensures
            r.holds_fields_of(e);
}

impl ExampleVersion for Example0_1_0 {
    open spec fn holds_fields_of(&self, e: Example) -> bool {
        self.a == e.a && self.b == e.b
    }

    fn from_example(e: Example) -> (r: Example0_1_0) {
        Example0_1_0 { a: e.a, b: e.b }
    }
}

impl ExampleVersion for Example0_2_0 {
    open spec fn holds_fields_of(&self, e: Example) -> bool {
        self.a == e.a && self.b == e.b && self.c@ == e.c@
    }

    fn from_example(e: Example) -> (r: Example0_2_0) {
        Example0_2_0 { a: e.a, b: e.b, c: e.c }
    }
}

impl Example {
    /// A builder with `a` and `b` zero and `c` empty.
    pub fn builder() -> (r: ExampleBuilder)
        ensures
            r.fields() == (0i32, 0u32, Seq::<char>::empty()),
    {
        ExampleBuilder { a: 0, b: 0, c: String::new() }
    }

    /// The example as one of its stored versions.
    pub fn to_versioned<T: ExampleVersion>(self) -> (r: T)
        ensures
            r.holds_fields_of(self),
    {
        T::from_example(self)
    }
}

impl ExampleBuilder {
    pub closed spec fn fields(&self) -> (i32, u32, Seq<char>) {
        (self.a, self.b, self.c@)
    }

    pub fn build(self) -> (r: Example)
        ensures
            r.a == self.fields().0,
            r.b == self.fields().1,
            r.c@ == self.fields().2,
    {
        Example { a: self.a, b: self.b, c: self.c }
    }

    pub fn a(self, a: i32) -> (r: ExampleBuilder)
        ensures
            r.fields() == (a, self.fields().1, self.fields().2),
    {
        ExampleBuilder { a, b: self.b, c: self.c }
    }

    pub fn b(self, b: u32) -> (r: ExampleBuilder)
        ensures
            r.fields() == (self.fields().0, b, self.fields().2),
    {
        ExampleBuilder { a: self.a, b, c: self.c }
    }

    pub fn c(self, c: String) -> (r: ExampleBuilder)
        ensures
            r.fields() == (self.fields().0, self.fields().1, c@),
    {
        ExampleBuilder { a: self.a, b: self.b, c }
    }
}

/// The id of a buffer.
#[derive(PartialEq, Eq, Structural, Clone, Copy)]
pub enum BufferId {
    /// The id of the buffer in the storage.
    Runtime(usize),
    /// The hash of the buffer's content, used for persistence.
    Hash(u64),
}

/// The id of a buffer in the cache of loaded buffers; only runtime ids have one.
#[derive(PartialEq, Eq, Structural, Clone, Copy)]
pub struct BufferCacheId(pub BufferId);

impl BufferId {
    pub fn runtime(id: usize) -> (r: BufferId)
        ensures
            r == BufferId::Runtime(id),
    {
        BufferId::Runtime(id)
    }

    pub fn hash(hash: u64) -> (r: BufferId)
        ensures
            r == BufferId::Hash(hash),
    {
        BufferId::Hash(hash)
    }

    pub fn to_cache_id(&self) -> (r: Option<BufferCacheId>)
        ensures
            r == (match *self {
                BufferId::Runtime(_) => Some(BufferCacheId(*self)),
                BufferId::Hash(_) => None,
            }),
    {
        match self {
            BufferId::Runtime(_) => Some(BufferCacheId(*self)),
            BufferId::Hash(_) => None,
        }
    }

    /// The storage key of a runtime id.
    pub fn runtime_key(&self) -> (r: usize)
        requires
            *self is Runtime,
        ensures
            r == self->Runtime_0,
    {
        match self {
            BufferId::Runtime(id) => *id,
            BufferId::Hash(_) => 0,
        }
    }

    /// The content hash of a hash id.
    pub fn hash_key(&self) -> (r: u64)
        requires
            *self is Hash,
        ensures
            r == self->Hash_0,
    {
        match self {
            BufferId::Hash(h) => *h,
            BufferId::Runtime(_) => 0,
        }
    }
}

/// Where a buffer's data comes from.
pub enum BufferMeta {
    /// Held in memory only.
    Memory,
    /// Read from a local file: `size` bytes from `offset`, or the whole file.
    LocalStorage { filename: String, offset: usize, size: Option<usize> },
    /// Read from a url.
    Url { url: String, offset: usize, size: Option<usize> },
}

/// How a buffer is added.
pub enum BufferOptions {
    /// Data in memory, with its hash if known.
    Memory { hash: Option<u64>, data: Vec<u8> },
    /// A local file, read when first needed.
    LocalStorage { hash: Option<u64>, filename: String, offset: Option<usize>, size: Option<usize> },
    /// A url (not supported).
    Url { hash: Option<u64>, url: String, offset: Option<usize>, size: Option<usize> },
}

/// What the storage keeps of a buffer: its data once loaded, its hash and
/// where the data comes from.
pub struct BufferRecord {
    pub data: Option<Vec<u8>>,
    pub hash: u64,
    pub meta: BufferMeta,
}

/// The record a buffer is added with. A memory buffer keeps its data and the
/// given hash, else `computed_hash` (the hash of the data); a file buffer
/// starts unloaded with the given hash or 0, at the given offset or 0.
pub fn record_from_options(options: BufferOptions, computed_hash: u64) -> (r: BufferRecord)
    requires
        !(options is Url),
    ensures
        match options {
            BufferOptions::Memory { hash, data } => {
                &&& r.data == Some(data)
                &&& r.hash == (match hash { Some(h) => h, None => computed_hash })
                &&& r.meta is Memory
            },
            BufferOptions::LocalStorage { hash, filename, offset, size } => {
                &&& r.data is None
                &&& r.hash == (match hash { Some(h) => h, None => 0 })
                &&& r.meta matches BufferMeta::LocalStorage { filename: f, offset: o, size: s }
                &&& f@ == filename@
                &&& o == (match offset { Some(x) => x, None => 0 })
                &&& s == size
            },
            BufferOptions::Url { .. } => false,
        },
{
    match options {
        BufferOptions::Memory { hash, data } => {
            let h = match hash {
                Some(h) => h,
                None => computed_hash,
            };
            BufferRecord { data: Some(data), hash: h, meta: BufferMeta::Memory }
        },
        BufferOptions::LocalStorage { hash, filename, offset, size } => {
            let h = match hash {
                Some(h) => h,
                None => 0,
            };
            let o = match offset {
                Some(x) => x,
                None => 0,
            };
            BufferRecord { data: None, hash: h, meta: BufferMeta::LocalStorage { filename, offset: o, size } }
        },
        BufferOptions::Url { .. } => BufferRecord { data: None, hash: 0, meta: BufferMeta::Memory },
    }
}

/// The hash of a buffer's bytes as `rapidhash`'s inline hasher (default seed)
/// computes it through `Hash` for a byte slice. The slice's `Hash` writes its
/// length in the machine's byte order and width, so the value depends on the
/// machine: nothing is stated of it.
#[verifier::external_body]
pub(crate) fn content_hash(data: &[u8]) -> u64 {
    let mut hasher = rapidhash::RapidInlineHasher::default();
    std::hash::Hash::hash(data, &mut hasher);
    std::hash::Hasher::finish(&hasher)
}

/// Whether `r` is a record that adding a buffer with `options` may give: a
/// memory buffer keeps its data and the given hash (a computed one where none
/// is given); a file buffer starts unloaded with the given hash or 0, at the
/// given offset or 0.
pub open spec fn added_record(options: BufferOptions, r: BufferRecord) -> bool {
    match options {
        BufferOptions::Memory { hash, data } => {
            &&& r.data == Some(data)
            &&& hash matches Some(h) ==> r.hash == h
            &&& r.meta is Memory
        },
        BufferOptions::LocalStorage { hash, filename, offset, size } => {
            &&& r.data is None
            &&& r.hash == (match hash { Some(h) => h, None => 0 })
            &&& r.meta matches BufferMeta::LocalStorage { filename: f, offset: o, size: s }
            &&& f@ == filename@
            &&& o == (match offset { Some(x) => x, None => 0 })
            &&& s == size
        },
        BufferOptions::Url { .. } => false,
    }
}

/// The record of a new buffer: the hash of memory data is computed where not
/// given.
pub fn add_record(options: BufferOptions) -> (r: BufferRecord)
    requires
        !(options is Url),
    ensures
        added_record(options, r),
{
    let computed = match &options {
        BufferOptions::Memory { hash: None, data } => content_hash(data.as_slice()),
        _ => 0,
    };
    record_from_options(options, computed)
}

/// The record of a file buffer once its bytes were read, with
/// `computed_hash` the hash of those bytes: the bytes and the hash are kept;
/// where the buffer comes from stays as it was.
pub fn loaded_record(record: BufferRecord, data: Vec<u8>, computed_hash: u64) -> (r: BufferRecord)
    ensures
        r.data == Some(data),
        r.hash == computed_hash,
        r.meta == record.meta,
{
    BufferRecord { data: Some(data), hash: computed_hash, meta: record.meta }
}

/// The record of a file buffer once its bytes were read: the hash is
/// computed from the bytes (see `loaded_record`).
pub fn record_loaded(record: BufferRecord, data: Vec<u8>) -> (r: BufferRecord)
    ensures
        r.data == Some(data),
        r.meta == record.meta,
{
    let hash = content_hash(data.as_slice());
    loaded_record(record, data, hash)
}

/// Whether a buffer has a backing storage (a file or a url).
pub fn is_persistent(meta: &BufferMeta) -> (r: bool)
    ensures
        r == !(*meta is Memory),
{
    match meta {
        BufferMeta::Memory => false,
        _ => true,
    }
}

/// What a synchronous get of a buffer does.
#[derive(PartialEq, Eq, Structural, Clone, Copy)]
pub enum GetPlan {
    /// The data is in memory: hand it out.
    UseLoaded,
    /// Read the file, then keep and cache the data.
    ReadFile,
}

/// The plan of a get: memory buffers are always loaded; a file buffer is read
/// unless it is loaded already.
pub fn plan_get(meta: &BufferMeta, loaded: bool) -> (r: GetPlan)
    requires
        *meta is Memory ==> loaded,
        !(*meta is Url),
    ensures
        r == (if loaded { GetPlan::UseLoaded } else { GetPlan::ReadFile }),
{
    if loaded { GetPlan::UseLoaded } else { GetPlan::ReadFile }
}

/// The bytes of a file that a synchronous read keeps, as (start, length):
/// the whole file where neither size nor offset is given, otherwise `size`
/// bytes (or the rest of the file) from `offset`.
pub open spec fn sync_window(file_len: nat, offset: nat, size: Option<usize>) -> (nat, nat) {
    if size is None && offset == 0 {
        (0, file_len)
    } else {
        (offset, match size {
            Some(s) => s as nat,
            None => (file_len - offset) as nat,
        })
    }
}

/// The window of a synchronous read; the window must lie inside the file
/// (the read would fail otherwise).
pub fn read_window(file_len: usize, offset: usize, size: Option<usize>) -> (r: (usize, usize))
    requires
        offset <= file_len,
        size matches Some(s) ==> offset + s <= file_len,
    ensures
        (r.0 as nat, r.1 as nat) == sync_window(file_len as nat, offset as nat, size),
        r.0 + r.1 <= file_len,
        size matches Some(s) ==> r == (offset, s),
        size is None ==> r.0 == offset && r.0 + r.1 == file_len,
{
    match size {
        None => if offset == 0 { (0, file_len) } else { (offset, file_len - offset) },
        Some(s) => (offset, s),
    }
}

/// The bytes of `file` in the window of a synchronous read.
pub fn window_bytes(file: &Vec<u8>, offset: usize, size: Option<usize>) -> (r: Vec<u8>)
    requires
        offset <= file@.len(),
        size matches Some(s) ==> offset + s <= file@.len(),
    ensures
        ({
            let w = sync_window(file@.len(), offset as nat, size);
            r@ == file@.subrange(w.0 as int, (w.0 + w.1) as int)
        }),
        size matches Some(s) ==> r@ == file@.subrange(offset as int, offset + s),
        size is None ==> r@ == file@.subrange(offset as int, file@.len() as int),
{
    let window = read_window(file.len(), offset, size);
    let start = window.0;
    let len = window.1;
    let mut r: Vec<u8> = Vec::new();
    let mut i: usize = 0;
    while i < len
        invariant
            i <= len,
            start + len <= file.len(),
            r@ == file@.subrange(start as int, start + i),
        decreases len - i,
    {
        r.push(file[start + i]);
        i = i + 1;
        assert(r@ =~= file@.subrange(start as int, start + i));
    }
    r
}

/// A synchronous read keeps exactly `size` bytes from `offset` where a size
/// is given, whatever the offset; without a size it keeps the rest of the
/// file from `offset` (the whole file where the offset is zero).
pub proof fn law_window_has_given_size(file_len: nat, offset: nat, size: Option<usize>)
    requires
        offset <= file_len,
    ensures
        size matches Some(s) ==> sync_window(file_len, offset, size) == (offset, s as nat),
        size is None ==> sync_window(file_len, offset, size) == (offset, (file_len - offset) as nat),
{
}

/// The read of an asynchronous load, as (offset, length): `size` bytes, or
/// as many as the whole file holds, from `offset`.
pub fn async_read_window(file_len: usize, offset: usize, size: Option<usize>) -> (r: (usize, usize))
    ensures
        r == (offset, match size {
            Some(s) => s,
            None => file_len,
        }),
{
    match size {
        Some(s) => (offset, s),
        None => (offset, file_len),
    }
}

/// Whether a slot holds a record with hash `h`.
pub open spec fn slot_has_hash(slot: Option<BufferRecord>, h: u64) -> bool {
    slot matches Some(r) && r.hash == h
}

/// Whether some slot of the table holds a record with hash `h`.
pub open spec fn holds_hash(t: Seq<Option<BufferRecord>>, h: u64) -> bool {
    exists|k: int| 0 <= k < t.len() && slot_has_hash(#[trigger] t[k], h)
}

/// The first slot of the table that holds a record with hash `h`.
pub open spec fn first_with_hash(t: Seq<Option<BufferRecord>>, h: u64) -> int
    decreases t.len(),
{
    if t.len() == 0 {
        0
    } else if holds_hash(t.drop_last(), h) {
        first_with_hash(t.drop_last(), h)
    } else {
        t.len() - 1
    }
}

/// The record that an id names in the table: a runtime id names the record
/// of its slot, where the slot exists and holds one.
pub open spec fn slot_record(t: Seq<Option<BufferRecord>>, id: BufferId) -> Option<BufferRecord> {
    match id {
        BufferId::Runtime(k) => if k < t.len() { t[k as int] } else { None },
        BufferId::Hash(_) => None,
    }
}

/// Whether adding a buffer with `options` reuses an existing buffer: a file
/// buffer whose given hash some buffer of the table already has.
pub open spec fn reuses(t: Seq<Option<BufferRecord>>, options: BufferOptions) -> bool {
    options matches BufferOptions::LocalStorage { hash: Some(h), .. } && holds_hash(t, h)
}

/// The buffers of the storage, by runtime id; a removed buffer leaves its
/// slot empty.
pub struct BufferTable {
    records: Vec<Option<BufferRecord>>,
}

impl View for BufferTable {
    type V = Seq<Option<BufferRecord>>;

    closed spec fn view(&self) -> Seq<Option<BufferRecord>> {
        self.records@
    }
}

impl BufferTable {
    pub fn new() -> (t: BufferTable)
        ensures
            t@ == Seq::<Option<BufferRecord>>::empty(),
    {
        BufferTable { records: Vec::new() }
    }

    /// The first slot holding a record with hash `h`.
    fn find_hash(&self, h: u64) -> (r: Option<usize>)
        ensures
            match r {
                Some(k) => holds_hash(self@, h) && k == first_with_hash(self@, h),
                None => !holds_hash(self@, h),
            },
    {
        let mut k: usize = 0;
        while k < self.records.len()
            invariant
                k <= self@.len(),
                self@ == self.records@,
                !holds_hash(self@.take(k as int), h),
            decreases self.records.len() - k,
        {
            let found = match &self.records[k] {
                Some(r) => r.hash == h,
                None => false,
            };
            if found {
                proof {
                    assert(holds_hash(self@, h));
                    lemma_first_with_hash(self@, k as int + 1, h);
                    assert(self@.take(k + 1).drop_last() =~= self@.take(k as int));
                }
                return Some(k);
            }
            proof {
                assert(self@.take(k + 1).drop_last() =~= self@.take(k as int));
                if holds_hash(self@.take(k + 1), h) {
                    let j = choose|j: int| 0 <= j < k + 1 && slot_has_hash(#[trigger] self@.take(k + 1)[j], h);
                    if j < k {
                        assert(self@.take(k as int)[j] == self@.take(k + 1)[j]);
                    }
                }
            }
            k = k + 1;
        }
        proof {
            assert(self@.take(k as int) =~= self@);
        }
        None
    }

    /// Adds a buffer and hands out its runtime id. A file buffer whose given
    /// hash an existing buffer has gets that buffer's id, and the table stays
    /// as it was (the existing buffer's metadata is kept); otherwise the new
    /// record goes into a new slot.
    pub fn add(&mut self, options: BufferOptions) -> (id: BufferId)
        requires
            !(options is Url),
        ensures
            reuses(old(self)@, options) ==> {
                &&& id == BufferId::Runtime(first_with_hash(old(self)@, options->LocalStorage_hash->Some_0) as usize)
                &&& final(self)@ == old(self)@
            },
            final(self)@.len() <= usize::MAX,
            !reuses(old(self)@, options) ==> {
                &&& id == BufferId::Runtime(old(self)@.len() as usize)
                &&& final(self)@.len() == old(self)@.len() + 1
                &&& final(self)@.drop_last() == old(self)@
                &&& final(self)@.last() matches Some(r) && added_record(options, r)
            },
    {
        let given = match &options {
            BufferOptions::LocalStorage { hash: Some(h), .. } => Some(*h),
            _ => None,
        };
        if let Some(h) = given {
            if let Some(k) = self.find_hash(h) {
                let n = self.records.len();
                proof {
                    lemma_first_with_hash_bounds(self@, h);
                    assert(n == self@.len());
                }
                return BufferId::runtime(k);
            }
        }
        let record = add_record(options);
        let k = self.records.len();
        self.records.push(Some(record));
        let n = self.records.len();
        proof {
            assert(self@.drop_last() =~= old(self)@);
            assert(n == self@.len());
        }
        BufferId::runtime(k)
    }

    /// The number of slots, removed buffers' included.
    pub fn len(&self) -> (r: usize)
        ensures
            r == self@.len(),
    {
        self.records.len()
    }

    /// The record of a buffer; `None` for a hash id and for a slot that does
    /// not exist or was emptied.
    pub fn record(&self, id: BufferId) -> (r: Option<&BufferRecord>)
        ensures
            match r {
                Some(x) => slot_record(self@, id) == Some(*x),
                None => slot_record(self@, id) is None,
            },
    {
        match id {
            BufferId::Runtime(k) => if k < self.records.len() {
                match &self.records[k] {
                    Some(x) => Some(x),
                    None => None,
                }
            } else {
                None
            },
            BufferId::Hash(_) => None,
        }
    }

    /// Puts a loaded record back into slot `k`.
    pub fn store_loaded(&mut self, k: usize, r: BufferRecord)
        requires
            k < old(self)@.len(),
        ensures
            final(self)@ == old(self)@.update(k as int, Some(r)),
    {
        self.records.set(k, Some(r));
    }

    /// Removes a buffer: its slot is emptied (nothing happens to a slot that
    /// does not exist).
    pub fn remove(&mut self, id: BufferId)
        requires
            id is Runtime,
        ensures
            final(self)@ == (if id->Runtime_0 < old(self)@.len() {
                old(self)@.update(id->Runtime_0 as int, None)
            } else {
                old(self)@
            }),
    {
        let k = id.runtime_key();
        if k < self.records.len() {
            self.records.set(k, None);
        }
    }

    /// The hash of a buffer, where the id names one.
    pub fn hash(&self, id: BufferId) -> (r: Option<u64>)
        ensures
            r == (match slot_record(self@, id) {
                Some(x) => Some(x.hash),
                None => None,
            }),
    {
        match self.record(id) {
            Some(x) => Some(x.hash),
            None => None,
        }
    }

    /// Whether a buffer's data is in memory.
    pub fn is_loaded(&self, id: BufferId) -> (r: bool)
        ensures
            r == (slot_record(self@, id) matches Some(x) && x.data is Some),
    {
        match self.record(id) {
            Some(x) => x.data.is_some(),
            None => false,
        }
    }

    /// Whether a buffer has a backing storage.
    pub fn is_persistent_buffer(&self, id: BufferId) -> (r: bool)
        ensures
            r == (slot_record(self@, id) matches Some(x) && !(x.meta is Memory)),
    {
        match self.record(id) {
            Some(x) => is_persistent(&x.meta),
            None => false,
        }
    }

    /// The size of a buffer's data; the buffer must be loaded.
    pub fn buffer_size(&self, id: BufferId) -> (r: Option<usize>)
        requires
            slot_record(self@, id) matches Some(x) ==> x.data is Some,
        ensures
            r == (match slot_record(self@, id) {
                Some(x) => Some(x.data->Some_0@.len() as usize),
                None => None,
            }),
    {
        match self.record(id) {
            Some(x) => match &x.data {
                Some(d) => Some(d.len()),
                None => None,
            },
            None => None,
        }
    }

    /// Completes the first get of a file buffer from the file's bytes: the
    /// window of the buffer is kept, with its hash, and handed out.
    pub fn load_from_file(&mut self, id: BufferId, file: &Vec<u8>) -> (r: Vec<u8>)
        requires
            slot_record(old(self)@, id) matches Some(x) && x.meta matches BufferMeta::LocalStorage {
                offset,
                size,
                ..
            } && offset <= file@.len() && (size matches Some(s) ==> offset + s <= file@.len()),
        ensures
            ({
                let k = id->Runtime_0 as int;
                let x = slot_record(old(self)@, id)->Some_0;
                let w = sync_window(file@.len(), x.meta->LocalStorage_offset as nat, x.meta->LocalStorage_size);
                &&& r@ == file@.subrange(w.0 as int, (w.0 + w.1) as int)
                &&& final(self)@.len() == old(self)@.len()
                &&& forall|j: int| 0 <= j < old(self)@.len() && j != k ==> final(self)@[j] == old(self)@[j]
                &&& final(self)@[k] matches Some(y) && y.data matches Some(d) && d@ == r@ && y.meta == x.meta
            }),
    {
        let k = id.runtime_key();
        let x = self.records[k].take().unwrap();
        let ghost taken = self@;
        assert(x == old(self)@[k as int]->Some_0);
        let (offset, size) = match &x.meta {
            BufferMeta::LocalStorage { offset, size, .. } => (*offset, *size),
            _ => (0, None),
        };
        let bytes = window_bytes(file, offset, size);
        let kept = bytes.clone();
        let loaded = record_loaded(x, bytes);
        self.records.set(k, Some(loaded));
        proof {
            assert forall|j: int| 0 <= j < old(self)@.len() && j != k implies final(self)@[j] == old(self)@[j] by {
                assert(taken[j] == old(self)@[j]);
            }
        }
        kept
    }
}

proof fn lemma_first_with_hash(t: Seq<Option<BufferRecord>>, n: int, h: u64)
    requires
        0 < n <= t.len(),
        !holds_hash(t.take(n - 1), h),
        slot_has_hash(t[n - 1], h),
    ensures
        first_with_hash(t, h) == n - 1,
    decreases t.len() - n,
{
    if n < t.len() {
        lemma_first_with_hash(t.drop_last(), n, h);
        assert(t.drop_last().take(n - 1) =~= t.take(n - 1));
        assert(t.drop_last()[n - 1] == t[n - 1]);
        assert(holds_hash(t.drop_last(), h));
    } else {
        assert(t.take(n - 1) =~= t.drop_last());
    }
}

proof fn lemma_first_with_hash_bounds(t: Seq<Option<BufferRecord>>, h: u64)
    requires
        holds_hash(t, h),
    ensures
        0 <= first_with_hash(t, h) < t.len(),
        slot_has_hash(t[first_with_hash(t, h)], h),
    decreases t.len(),
{
    if holds_hash(t.drop_last(), h) {
        lemma_first_with_hash_bounds(t.drop_last(), h);
        assert(t.drop_last()[first_with_hash(t, h)] == t[first_with_hash(t, h)]);
    } else {
        let k = choose|k: int| 0 <= k < t.len() && slot_has_hash(#[trigger] t[k], h);
        if k < t.len() - 1 {
            assert(t.drop_last()[k] == t[k]);
        }
    }
}

} // verus!
