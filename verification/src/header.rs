//! What a loader reads of a checkpoint: fields, tensors and the schema that
//! they must match before a single byte is uploaded.
use vstd::prelude::*;
use crate::error::{Fault, MetalError};
use crate::program::{Buffer, Weight};

verus! {

/// One metadata field, by what each accessor answers for it.
#[derive(Debug)]
pub struct Field {
    pub key: String,
    /// The value as an unsigned number.
    pub unsigned: Option<u64>,
    /// The bit pattern of the value as a single-precision number.
    pub single: Option<u32>,
    pub flag: Option<bool>,
    /// The elements of an array, each as an unsigned number.
    pub list: Option<Vec<Option<u64>>>,
    /// The elements of an array, each as the bit pattern of a
    /// single-precision number.
    pub reals: Option<Vec<Option<u32>>>,
    pub text: Option<String>,
}

/// One stored tensor.
#[derive(Debug)]
pub struct Tensor {
    pub name: String,
    pub dims: Vec<u64>,
    pub ty: u32,
    /// Bytes that are there.
    pub bytes: u64,
    /// Bytes that the format takes for this many elements.
    pub format_bytes: Option<u64>,
}

#[derive(Debug)]
pub struct Header {
    pub architecture: Option<String>,
    pub fields: Vec<Field>,
    pub tensors: Vec<Tensor>,
    /// Bytes of the whole checkpoint.
    pub total: u64,
}

/// The place of the first field called `key` from `i` on.
pub open spec fn field_at(fields: Seq<Field>, key: Seq<char>, i: int) -> Option<int>
    decreases fields.len() - i,
{
    if i >= fields.len() {
        None
    } else if fields[i].key@ == key {
        Some(i)
    } else {
        field_at(fields, key, i + 1)
    }
}

/// The place of the first tensor called `name` from `i` on.
pub open spec fn tensor_at(tensors: Seq<Tensor>, name: Seq<char>, i: int) -> Option<int>
    decreases tensors.len() - i,
{
    if i >= tensors.len() {
        None
    } else if tensors[i].name@ == name {
        Some(i)
    } else {
        tensor_at(tensors, name, i + 1)
    }
}

pub fn is_named(s: &String, name: &str) -> (r: bool)
    ensures
        r == (s@ == name@),
{
    *s == name.to_owned()
}

/// A text stands in another from `at` on.
pub open spec fn occurs(s: Seq<char>, part: Seq<char>, at: int) -> bool {
    &&& 0 <= at
    &&& at + part.len() <= s.len()
    &&& s.subrange(at, at + part.len()) == part
}

pub fn occurs_at(s: &str, part: &str, at: usize) -> (r: bool)
    ensures
        r == occurs(s@, part@, at as int),
{
    let n: usize = s.unicode_len();
    let m: usize = part.unicode_len();
    if at > n || m > n - at {
        return false;
    }
    let mut i: usize = 0;
    while i < m
        invariant
            i <= m,
            m == part@.len(),
            at + m <= s@.len() == n,
            forall|j: int| 0 <= j < i ==> s@[at + j] == part@[j],
        decreases m - i,
    {
        if s.get_char(at + i) != part.get_char(i) {
            assert(s@.subrange(at as int, at + m)[i as int] != part@[i as int]);
            return false;
        }
        i = i + 1;
    }
    assert(s@.subrange(at as int, at + m) =~= part@);
    true
}

pub open spec fn has_part(s: Seq<char>, part: Seq<char>) -> bool {
    exists|at: int| #[trigger] occurs(s, part, at)
}

/// Whether one text contains another.
pub fn contains_part(s: &str, part: &str) -> (r: bool)
    ensures
        r == has_part(s@, part@),
{
    let n: usize = s.unicode_len();
    let mut at: usize = 0;
    while at < n
        invariant
            at <= n,
            n == s@.len(),
            forall|j: int| 0 <= j < at ==> !#[trigger] occurs(s@, part@, j),
        decreases n - at,
    {
        if occurs_at(s, part, at) {
            return true;
        }
        at = at + 1;
    }
    occurs_at(s, part, n)
}

/// A decimal digit.
pub open spec fn digit(d: int) -> Seq<char> {
    if d == 0 {
        "0"@
    } else if d == 1 {
        "1"@
    } else if d == 2 {
        "2"@
    } else if d == 3 {
        "3"@
    } else if d == 4 {
        "4"@
    } else if d == 5 {
        "5"@
    } else if d == 6 {
        "6"@
    } else if d == 7 {
        "7"@
    } else if d == 8 {
        "8"@
    } else {
        "9"@
    }
}

/// The decimal form of a number.
pub open spec fn decimal(n: nat) -> Seq<char>
    decreases n,
{
    if n < 10 {
        digit(n as int)
    } else {
        decimal(n / 10) + digit(n as int % 10)
    }
}

fn digit_text(d: usize) -> (r: &'static str)
    requires
        d < 10,
    ensures
        r@ == digit(d as int),
{
    match d {
        0 => "0",
        1 => "1",
        2 => "2",
        3 => "3",
        4 => "4",
        5 => "5",
        6 => "6",
        7 => "7",
        8 => "8",
        _ => "9",
    }
}

pub fn decimal_text(n: u64) -> (r: String)
    ensures
        r@ == decimal(n as nat),
    decreases n,
{
    if n < 10 {
        digit_text(n as usize).to_owned()
    } else {
        let mut s = decimal_text(n / 10);
        s.append(digit_text((n % 10) as usize));
        s
    }
}

/// A tensor of block `i`.
pub open spec fn block_name(i: int, name: Seq<char>) -> Seq<char> {
    "blk."@ + decimal(i as nat) + "."@ + name
}

pub fn block_text(i: usize, name: &str) -> (r: String)
    ensures
        r@ == block_name(i as int, name@),
{
    far_block_text(i as u64, name)
}

pub fn far_block_text(i: u64, name: &str) -> (r: String)
    ensures
        r@ == block_name(i as int, name@),
{
    let mut s = "blk.".to_owned();
    let number = decimal_text(i);
    s.append(number.as_str());
    s.append(".");
    s.append(name);
    s
}

impl Header {
    pub open spec fn unsigned(&self, key: Seq<char>) -> Option<u64> {
        match field_at(self.fields@, key, 0) {
            Some(i) => self.fields[i].unsigned,
            None => None,
        }
    }

    pub open spec fn single(&self, key: Seq<char>) -> Option<u32> {
        match field_at(self.fields@, key, 0) {
            Some(i) => self.fields[i].single,
            None => None,
        }
    }

    pub open spec fn flag(&self, key: Seq<char>) -> Option<bool> {
        match field_at(self.fields@, key, 0) {
            Some(i) => self.fields[i].flag,
            None => None,
        }
    }

    pub open spec fn list(&self, key: Seq<char>) -> Option<Seq<Option<u64>>> {
        match field_at(self.fields@, key, 0) {
            Some(i) => match self.fields[i].list {
                Some(v) => Some(v@),
                None => None,
            },
            None => None,
        }
    }

    pub open spec fn reals(&self, key: Seq<char>) -> Option<Seq<Option<u32>>> {
        match field_at(self.fields@, key, 0) {
            Some(i) => match self.fields[i].reals {
                Some(v) => Some(v@),
                None => None,
            },
            None => None,
        }
    }

    pub open spec fn text(&self, key: Seq<char>) -> Option<Seq<char>> {
        match field_at(self.fields@, key, 0) {
            Some(i) => match self.fields[i].text {
                Some(s) => Some(s@),
                None => None,
            },
            None => None,
        }
    }

    pub open spec fn has_field(&self, key: Seq<char>) -> bool {
        field_at(self.fields@, key, 0) is Some
    }

    pub open spec fn tensor(&self, name: Seq<char>) -> Option<Tensor> {
        match tensor_at(self.tensors@, name, 0) {
            Some(i) => Some(self.tensors[i]),
            None => None,
        }
    }

    fn find_field(&self, key: &str) -> (r: Option<usize>)
        ensures
            match r {
                Some(i) => field_at(self.fields@, key@, 0) == Some(i as int) && i < self.fields.len(),
                None => field_at(self.fields@, key@, 0) is None,
            },
    {
        let mut i: usize = 0;
        while i < self.fields.len()
            invariant
                i <= self.fields.len(),
                field_at(self.fields@, key@, 0) == field_at(self.fields@, key@, i as int),
            decreases self.fields.len() - i,
        {
            if is_named(&self.fields[i].key, key) {
                return Some(i);
            }
            i = i + 1;
        }
        None
    }

    pub fn get_unsigned(&self, key: &str) -> (r: Option<u64>)
        ensures
            r == self.unsigned(key@),
    {
        match self.find_field(key) {
            Some(i) => self.fields[i].unsigned,
            None => None,
        }
    }

    pub fn get_single(&self, key: &str) -> (r: Option<u32>)
        ensures
            r == self.single(key@),
    {
        match self.find_field(key) {
            Some(i) => self.fields[i].single,
            None => None,
        }
    }

    pub fn get_flag(&self, key: &str) -> (r: Option<bool>)
        ensures
            r == self.flag(key@),
    {
        match self.find_field(key) {
            Some(i) => self.fields[i].flag,
            None => None,
        }
    }

    /// Whether a text field reads `want`.
    pub fn text_is(&self, key: &str, want: &str) -> (r: bool)
        ensures
            r == (self.text(key@) == Some(want@)),
    {
        match self.find_field(key) {
            None => false,
            Some(i) => match &self.fields[i].text {
                Some(s) => is_named(s, want),
                None => false,
            },
        }
    }

    /// Whether an array field holds `n` numbers of this bit pattern.
    pub fn reals_are(&self, key: &str, n: usize, bits: u32) -> (r: bool)
        ensures
            r == (self.reals(key@) == Some(Seq::new(n as nat, |i: int| Some(bits)))),
    {
        let ghost want = Seq::new(n as nat, |i: int| Some(bits));
        match self.find_field(key) {
            None => false,
            Some(at) => match &self.fields[at].reals {
                None => false,
                Some(v) => {
                    if v.len() != n {
                        assert(v@.len() != want.len());
                        return false;
                    }
                    let mut i: usize = 0;
                    while i < n
                        invariant
                            i <= n,
                            v.len() == n,
                            want == Seq::new(n as nat, |i: int| Some(bits)),
                            self.reals(key@) == Some(v@),
                            forall|j: int| 0 <= j < i ==> v[j] == want[j],
                        decreases n - i,
                    {
                        assert(want[i as int] == Some(bits));
                        let same = match v[i] {
                            Some(b) => b == bits,
                            None => false,
                        };
                        if !same {
                            assert(v@[i as int] != want[i as int]);
                            return false;
                        }
                        i = i + 1;
                    }
                    assert(v@ =~= want);
                    true
                },
            },
        }
    }

    pub fn contains_field(&self, key: &str) -> (r: bool)
        ensures
            r == self.has_field(key@),
    {
        self.find_field(key).is_some()
    }

    /// Whether an array field holds exactly these numbers.
    pub fn list_is(&self, key: &str, want: &Vec<u64>) -> (r: bool)
        ensures
            r == (self.list(key@) == Some(want@.map_values(|n: u64| Some(n)))),
    {
        let ghost full = want@.map_values(|n: u64| Some(n));
        match self.find_field(key) {
            None => false,
            Some(at) => match &self.fields[at].list {
                None => false,
                Some(v) => {
                    if v.len() != want.len() {
                        assert(v@.len() != full.len());
                        return false;
                    }
                    let mut i: usize = 0;
                    while i < v.len()
                        invariant
                            i <= v.len(),
                            v.len() == want.len(),
                            full == want@.map_values(|n: u64| Some(n)),
                            self.list(key@) == Some(v@),
                            forall|j: int| 0 <= j < i ==> v[j] == full[j],
                        decreases v.len() - i,
                    {
                        assert(full[i as int] == Some(want[i as int]));
                        match v[i] {
                            Some(n) => {
                                if n != want[i] {
                                    assert(v@[i as int] != full[i as int]);
                                    return false;
                                }
                            },
                            None => {
                                assert(v@[i as int] != full[i as int]);
                                return false;
                            },
                        }
                        i = i + 1;
                    }
                    assert(v@ =~= full);
                    true
                },
            },
        }
    }

    pub fn find_tensor(&self, name: &str) -> (r: Option<usize>)
        ensures
            match r {
                Some(i) => tensor_at(self.tensors@, name@, 0) == Some(i as int) && i
                    < self.tensors.len(),
                None => tensor_at(self.tensors@, name@, 0) is None,
            },
    {
        let mut i: usize = 0;
        while i < self.tensors.len()
            invariant
                i <= self.tensors.len(),
                tensor_at(self.tensors@, name@, 0) == tensor_at(self.tensors@, name@, i as int),
            decreases self.tensors.len() - i,
        {
            if is_named(&self.tensors[i].name, name) {
                return Some(i);
            }
            i = i + 1;
        }
        None
    }
}

/// A tensor that a graph expects, as the contracts see it.
pub struct Expected {
    pub name: Seq<char>,
    pub dims: Seq<u64>,
    pub ty: u32,
    /// Whether it is uploaded.
    pub resident: bool,
}

#[derive(Debug)]
pub struct Entry {
    pub name: String,
    pub dims: Vec<u64>,
    pub ty: u32,
    pub resident: bool,
}

impl View for Entry {
    type V = Expected;

    open spec fn view(&self) -> Expected {
        Expected { name: self.name@, dims: self.dims@, ty: self.ty, resident: self.resident }
    }
}

pub open spec fn schema(entries: Seq<Entry>) -> Seq<Expected> {
    entries.map_values(|e: Entry| e@)
}

pub open spec fn expected(name: Seq<char>, dims: Seq<u64>, ty: u32, resident: bool) -> Expected {
    Expected { name, dims, ty, resident }
}

/// Append one expectation.
pub fn expect(list: &mut Vec<Entry>, name: String, dims: Vec<u64>, ty: u32, resident: bool)
    ensures
        schema(final(list)@) == schema(old(list)@).push(expected(name@, dims@, ty, resident)),
{
    let e = Entry { name, dims, ty, resident };
    let ghost view = e@;
    list.push(e);
    assert(schema(list@) =~= schema(old(list)@).push(view));
}

/// A stored tensor meets an expectation: shape, format and byte count.
pub open spec fn meets(t: Option<Tensor>, e: Expected) -> bool {
    match t {
        None => false,
        Some(t) => t.ty == e.ty && t.dims@ == e.dims && t.format_bytes == Some(t.bytes),
    }
}

/// Resident bytes of the first `n` expectations.
pub open spec fn resident_bytes(h: &Header, entries: Seq<Expected>, n: int) -> int
    decreases n,
{
    if n <= 0 {
        0
    } else {
        resident_bytes(h, entries, n - 1) + if entries[n - 1].resident {
            match h.tensor(entries[n - 1].name) {
                Some(t) => t.bytes as int,
                None => 0,
            }
        } else {
            0
        }
    }
}

/// The first expectation from `n` on that is not met.
pub open spec fn first_unmet(h: &Header, entries: Seq<Expected>, n: int) -> Option<int>
    decreases entries.len() - n,
{
    if n >= entries.len() {
        None
    } else if !meets(h.tensor(entries[n].name), entries[n]) {
        Some(n)
    } else {
        first_unmet(h, entries, n + 1)
    }
}

/// A tensor that no expectation names.
pub open spec fn foreign(entries: Seq<Expected>, t: Tensor) -> bool {
    forall|i: int| 0 <= i < entries.len() ==> (#[trigger] entries[i]).name != t.name@
}

pub open spec fn any_foreign(h: &Header, entries: Seq<Expected>) -> bool {
    exists|i: int| 0 <= i < h.tensors.len() && foreign(entries, #[trigger] h.tensors[i])
}

pub fn same_dims(a: &Vec<u64>, b: &Vec<u64>) -> (r: bool)
    ensures
        r == (a@ == b@),
{
    if a.len() != b.len() {
        return false;
    }
    let mut i: usize = 0;
    while i < a.len()
        invariant
            i <= a.len(),
            a.len() == b.len(),
            forall|j: int| 0 <= j < i ==> a[j] == b[j],
        decreases a.len() - i,
    {
        if a[i] != b[i] {
            return false;
        }
        i = i + 1;
    }
    assert(a@ =~= b@);
    true
}

impl Header {
    /// Check every expectation in order; the resident bytes, or the first
    /// expectation that is not met.
    pub fn check(&self, entries: &Vec<Entry>) -> (r: Result<u128, MetalError>)
        ensures
            match first_unmet(self, schema(entries@), 0) {
                Some(i) => r == Err::<u128, MetalError>(
                    MetalError::Model(Fault::Tensor { index: i as usize }),
                ),
                None => r matches Ok(n) && n == resident_bytes(
                    self,
                    schema(entries@),
                    entries.len() as int,
                ),
            },
    {
        let ghost want = schema(entries@);
        let mut total: u128 = 0;
        let mut i: usize = 0;
        while i < entries.len()
            invariant
                i <= entries.len(),
                want == schema(entries@),
                first_unmet(self, want, 0) == first_unmet(self, want, i as int),
                total == resident_bytes(self, want, i as int),
                total <= i * 0xffff_ffff_ffff_ffff,
            decreases entries.len() - i,
        {
            let e = &entries[i];
            assert(want[i as int] == entries[i as int]@);
            let ok = match self.find_tensor(e.name.as_str()) {
                None => false,
                Some(k) => {
                    let t = &self.tensors[k];
                    t.ty == e.ty && same_dims(&t.dims, &e.dims) && t.format_bytes == Some(t.bytes)
                },
            };
            if !ok {
                return Err(MetalError::Model(Fault::Tensor { index: i }));
            }
            if e.resident {
                if let Some(k) = self.find_tensor(e.name.as_str()) {
                    total = total + self.tensors[k].bytes as u128;
                }
            }
            i = i + 1;
        }
        Ok(total)
    }

    pub fn is_foreign(&self, entries: &Vec<Entry>, k: usize) -> (r: bool)
        requires
            k < self.tensors.len(),
        ensures
            r == foreign(schema(entries@), self.tensors[k as int]),
    {
        let mut i: usize = 0;
        while i < entries.len()
            invariant
                i <= entries.len(),
                k < self.tensors.len(),
                forall|j: int|
                    0 <= j < i ==> (#[trigger] schema(entries@)[j]).name != self.tensors[k as int].name@,
            decreases entries.len() - i,
        {
            assert(schema(entries@)[i as int] == entries[i as int]@);
            if entries[i].name == self.tensors[k].name {
                return false;
            }
            i = i + 1;
        }
        true
    }

    /// Whether the checkpoint stores a tensor that the schema does not name.
    pub fn has_foreign(&self, entries: &Vec<Entry>) -> (r: bool)
        ensures
            r == any_foreign(self, schema(entries@)),
    {
        let mut k: usize = 0;
        while k < self.tensors.len()
            invariant
                k <= self.tensors.len(),
                forall|j: int|
                    0 <= j < k ==> !foreign(schema(entries@), #[trigger] self.tensors[j]),
            decreases self.tensors.len() - k,
        {
            if self.is_foreign(entries, k) {
                return true;
            }
            k = k + 1;
        }
        false
    }
}

/// Stored with the expected shape, in whatever format.
pub open spec fn shaped(t: Option<Tensor>, e: Expected) -> bool {
    match t {
        None => false,
        Some(t) => t.dims@ == e.dims,
    }
}

/// The first expectation from `n` on that is missing or of another shape.
pub open spec fn first_misshapen(h: &Header, entries: Seq<Expected>, n: int) -> Option<int>
    decreases entries.len() - n,
{
    if n >= entries.len() {
        None
    } else if !shaped(h.tensor(entries[n].name), entries[n]) {
        Some(n)
    } else {
        first_misshapen(h, entries, n + 1)
    }
}

/// The plane of expectation `j`, uploaded as allocation `j` in its stored
/// format.
pub open spec fn placed(h: &Header, entries: Seq<Expected>, j: int) -> Weight {
    let e = entries[j];
    let t = h.tensor(e.name);
    Weight {
        buffer: Buffer {
            id: j as u32,
            len: match t {
                Some(t) => t.bytes,
                None => 0,
            },
        },
        ty: match t {
            Some(t) => t.ty,
            None => 0,
        },
        k: e.dims[0] as usize,
        n: if e.dims.len() > 1 { e.dims[1] as usize } else { 1 },
    }
}

/// The same plane with its allocation counted from `first`.
pub open spec fn based(w: Weight, first: u32) -> Weight {
    Weight { buffer: Buffer { id: (w.buffer.id + first) as u32, len: w.buffer.len }, ..w }
}

impl Header {
    /// Check every shape in order; the resident bytes, or the first that
    /// differs.
    pub fn check_shapes(&self, entries: &Vec<Entry>) -> (r: Result<u128, MetalError>)
        ensures
            match first_misshapen(self, schema(entries@), 0) {
                Some(i) => r == Err::<u128, MetalError>(
                    MetalError::Model(Fault::Tensor { index: i as usize }),
                ),
                None => r matches Ok(n) && n == resident_bytes(
                    self,
                    schema(entries@),
                    entries.len() as int,
                ),
            },
    {
        let ghost want = schema(entries@);
        let mut total: u128 = 0;
        let mut i: usize = 0;
        while i < entries.len()
            invariant
                i <= entries.len(),
                want == schema(entries@),
                first_misshapen(self, want, 0) == first_misshapen(self, want, i as int),
                total == resident_bytes(self, want, i as int),
                total <= i * 0xffff_ffff_ffff_ffff,
            decreases entries.len() - i,
        {
            let e = &entries[i];
            assert(want[i as int] == entries[i as int]@);
            let ok = match self.find_tensor(e.name.as_str()) {
                None => false,
                Some(k) => same_dims(&self.tensors[k].dims, &e.dims),
            };
            if !ok {
                return Err(MetalError::Model(Fault::Tensor { index: i }));
            }
            if e.resident {
                if let Some(k) = self.find_tensor(e.name.as_str()) {
                    total = total + self.tensors[k].bytes as u128;
                }
            }
            i = i + 1;
        }
        Ok(total)
    }

    pub fn place(&self, entries: &Vec<Entry>, j: usize) -> (r: Weight)
        requires
            j < entries.len() <= u32::MAX,
            0 < entries[j as int].dims.len(),
        ensures
            r == placed(self, schema(entries@), j as int),
    {
        let e = &entries[j];
        assert(schema(entries@)[j as int] == entries[j as int]@);
        let (len, ty) = match self.find_tensor(e.name.as_str()) {
            Some(k) => (self.tensors[k].bytes, self.tensors[k].ty),
            None => (0, 0),
        };
        Weight {
            buffer: Buffer { id: j as u32, len },
            ty,
            k: e.dims[0] as usize,
            n: if e.dims.len() > 1 { e.dims[1] as usize } else { 1 },
        }
    }
}

/// A field that counts something: positive and of 32 bits.
pub open spec fn count_field(h: &Header, key: Seq<char>) -> Option<u64> {
    match h.unsigned(key) {
        Some(n) => if 0 < n <= u32::MAX { Some(n) } else { None },
        None => None,
    }
}

/// Bit pattern of a field that is a positive finite number.
pub open spec fn real_field(h: &Header, key: Seq<char>) -> Option<u32> {
    match h.single(key) {
        Some(b) => if 0 < b < 0x7f80_0000 { Some(b) } else { None },
        None => None,
    }
}

pub fn get_count(h: &Header, key: &str) -> (r: Option<u64>)
    ensures
        r == count_field(h, key@),
{
    match h.get_unsigned(key) {
        Some(n) => if n > 0 && n <= u32::MAX as u64 {
            Some(n)
        } else {
            None
        },
        None => None,
    }
}

pub fn get_real(h: &Header, key: &str) -> (r: Option<u32>)
    ensures
        r == real_field(h, key@),
{
    match h.get_single(key) {
        Some(b) => if b > 0 && b < 0x7f80_0000 {
            Some(b)
        } else {
            None
        },
        None => None,
    }
}

/// The format code of an expectation that takes any format.
pub const ANY_FORMAT: u32 = 0xffff_ffff;

/// Stored with the expected shape, and in the expected format where there is
/// one.
pub open spec fn fits(t: Option<Tensor>, e: Expected) -> bool {
    match t {
        None => false,
        Some(t) => t.dims@ == e.dims && (e.ty == ANY_FORMAT || t.ty == e.ty),
    }
}

/// The first expectation from `n` on that does not fit.
pub open spec fn first_misfit(h: &Header, entries: Seq<Expected>, n: int) -> Option<int>
    decreases entries.len() - n,
{
    if n >= entries.len() {
        None
    } else if !fits(h.tensor(entries[n].name), entries[n]) {
        Some(n)
    } else {
        first_misfit(h, entries, n + 1)
    }
}

impl Header {
    /// Check every shape and demanded format in order; the resident bytes, or
    /// the first that differs.
    pub fn check_fit(&self, entries: &Vec<Entry>) -> (r: Result<u128, MetalError>)
        ensures
            match first_misfit(self, schema(entries@), 0) {
                Some(i) => r == Err::<u128, MetalError>(
                    MetalError::Model(Fault::Tensor { index: i as usize }),
                ),
                None => r matches Ok(n) && n == resident_bytes(
                    self,
                    schema(entries@),
                    entries.len() as int,
                ),
            },
    {
        let ghost want = schema(entries@);
        let mut total: u128 = 0;
        let mut i: usize = 0;
        while i < entries.len()
            invariant
                i <= entries.len(),
                want == schema(entries@),
                first_misfit(self, want, 0) == first_misfit(self, want, i as int),
                total == resident_bytes(self, want, i as int),
                total <= i * 0xffff_ffff_ffff_ffff,
            decreases entries.len() - i,
        {
            let e = &entries[i];
            assert(want[i as int] == entries[i as int]@);
            let ok = match self.find_tensor(e.name.as_str()) {
                None => false,
                Some(k) => {
                    let t = &self.tensors[k];
                    same_dims(&t.dims, &e.dims) && (e.ty == ANY_FORMAT || t.ty == e.ty)
                },
            };
            if !ok {
                return Err(MetalError::Model(Fault::Tensor { index: i }));
            }
            if e.resident {
                if let Some(k) = self.find_tensor(e.name.as_str()) {
                    total = total + self.tensors[k].bytes as u128;
                }
            }
            i = i + 1;
        }
        Ok(total)
    }
}

} // verus!
