//! Classical memory: the shape of a declared region, regions that share storage with
//! another, and references to single elements.

use vstd::prelude::*;
use vstd::std_specs::cmp::PartialEqSpecImpl;
use vstd::string::*;
use crate::text::{
    chars_of, copy_items, decimal, is_name, is_name_char, is_numeral, lemma_decimal_round_trip, name_char,
    numeral_value, push_decimal, read_numeral,
};

verus! {

/// The type of one element of a region.
#[derive(Clone, Copy, Debug, PartialEq, Eq, Hash, Structural)]
pub enum ScalarType {
    Bit,
    Integer,
    Octet,
    Real,
}

impl ScalarType {
    /// The keyword of the type.
    pub open spec fn rendered(self) -> Seq<char> {
        match self {
            ScalarType::Bit => "BIT"@,
            ScalarType::Integer => "INTEGER"@,
            ScalarType::Octet => "OCTET"@,
            ScalarType::Real => "REAL"@,
        }
    }

    fn keyword(self) -> (r: &'static str)
        ensures
            r@ == self.rendered(),
    {
        match self {
            ScalarType::Bit => "BIT",
            ScalarType::Integer => "INTEGER",
            ScalarType::Octet => "OCTET",
            ScalarType::Real => "REAL",
        }
    }

    /// The keyword of the type, as text.
    pub fn to_quil(&self) -> (r: String)
        ensures
            r@ == self.rendered(),
    {
        String::from_str(self.keyword())
    }
}

/// The shape of a region: `length` elements of one type.
#[derive(Clone, Copy, Debug, PartialEq, Eq, Hash, Structural)]
pub struct Vector {
    pub data_type: ScalarType,
    pub length: u64,
}

impl Vector {
    pub fn new(data_type: ScalarType, length: u64) -> (r: Self)
        ensures
            r.data_type == data_type,
            r.length == length,
    {
        Vector { data_type, length }
    }

    /// A region holds at least one element.
    pub open spec fn well_formed(self) -> bool {
        self.length >= 1
    }

    pub fn is_well_formed(&self) -> (r: bool)
        ensures
            r == self.well_formed(),
    {
        self.length >= 1
    }

    /// `TYPE[length]`.
    pub open spec fn rendered(self) -> Seq<char> {
        self.data_type.rendered() + "["@ + decimal(self.length as nat) + "]"@
    }

    fn write(&self, out: &mut String)
        ensures
            final(out)@ == old(out)@ + self.rendered(),
    {
        out.append(self.data_type.keyword());
        out.append("[");
        push_decimal(out, self.length);
        out.append("]");
        assert(out@ =~= old(out)@ + self.rendered());
    }

    pub fn to_quil(&self) -> (r: String)
        ensures
            r@ == self.rendered(),
    {
        let mut out = String::new();
        self.write(&mut out);
        assert(out@ =~= self.rendered());
        out
    }
}

/// A position inside a shared region, counted in elements of `data_type`.
#[derive(Clone, Copy, Debug, PartialEq, Eq, Hash, Structural)]
pub struct Offset {
    pub offset: u64,
    pub data_type: ScalarType,
}

impl Offset {
    pub fn new(offset: u64, data_type: ScalarType) -> (r: Self)
        ensures
            r.offset == offset,
            r.data_type == data_type,
    {
        Offset { offset, data_type }
    }

    /// `offset TYPE`.
    pub open spec fn rendered(self) -> Seq<char> {
        decimal(self.offset as nat) + " "@ + self.data_type.rendered()
    }

    fn write(&self, out: &mut String)
        ensures
            final(out)@ == old(out)@ + self.rendered(),
    {
        push_decimal(out, self.offset);
        out.append(" ");
        out.append(self.data_type.keyword());
        assert(out@ =~= old(out)@ + self.rendered());
    }

    pub fn to_quil(&self) -> (r: String)
        ensures
            r@ == self.rendered(),
    {
        let mut out = String::new();
        self.write(&mut out);
        assert(out@ =~= self.rendered());
        out
    }
}

/// Whether two lists hold the same offsets in the same order.
fn same_offsets(a: &Vec<Offset>, b: &Vec<Offset>) -> (r: bool)
    ensures
        r == (a@ == b@),
{
    if a.len() != b.len() {
        return false;
    }
    let mut i: usize = 0;
    while i < a.len()
        invariant
            i <= a.len(),
            a.len() == b.len(),
            forall|k: int| 0 <= k < i ==> a@[k] == b@[k],
        decreases a.len() - i,
    {
        if a[i] != b[i] {
            return false;
        }
        i = i + 1;
    }
    assert(a@ =~= b@);
    true
}

/// Storage borrowed from the region `name`, at the given offsets, in place of storage of
/// the declaration's own.
#[derive(Debug, Hash)]
pub struct Sharing {
    pub name: String,
    pub offsets: Vec<Offset>,
}

pub struct SharingView {
    pub name: Seq<char>,
    pub offsets: Seq<Offset>,
}

impl View for Sharing {
    type V = SharingView;

    open spec fn view(&self) -> SharingView {
        SharingView { name: self.name@, offsets: self.offsets@ }
    }
}

impl SharingView {
    /// ` OFFSET` and then each offset behind a space; nothing where there is none.
    pub open spec fn offsets_rendered(offsets: Seq<Offset>) -> Seq<char>
        decreases offsets.len(),
    {
        if offsets.len() == 0 {
            Seq::<char>::empty()
        } else if offsets.len() == 1 {
            " OFFSET "@ + offsets[0].rendered()
        } else {
            Self::offsets_rendered(offsets.drop_last()) + " "@ + offsets.last().rendered()
        }
    }

    /// ` SHARING name`, and the offsets if there are any.
    pub open spec fn rendered(self) -> Seq<char> {
        " SHARING "@ + self.name + Self::offsets_rendered(self.offsets)
    }
}

impl PartialEq for Sharing {
    fn eq(&self, other: &Self) -> (r: bool) {
        self.name == other.name && same_offsets(&self.offsets, &other.offsets)
    }
}

impl PartialEqSpecImpl for Sharing {
    open spec fn obeys_eq_spec() -> bool {
        true
    }

    open spec fn eq_spec(&self, other: &Self) -> bool {
        self@ == other@
    }
}

impl Eq for Sharing {

}

impl Clone for Sharing {
    fn clone(&self) -> (r: Self)
        ensures
            r@ == self@,
    {
        Sharing { name: self.name.clone(), offsets: copy_items(&self.offsets) }
    }
}

impl Sharing {
    pub fn new(name: String, offsets: Vec<Offset>) -> (r: Self)
        ensures
            r.name == name,
            r.offsets == offsets,
    {
        Sharing { name, offsets }
    }

    fn write(&self, out: &mut String)
        ensures
            final(out)@ == old(out)@ + self@.rendered(),
    {
        out.append(" SHARING ");
        out.append(self.name.as_str());
        let ghost base = out@;
        let mut i: usize = 0;
        while i < self.offsets.len()
            invariant
                i <= self.offsets.len(),
                out@ == base + SharingView::offsets_rendered(self.offsets@.take(i as int)),
            decreases self.offsets.len() - i,
        {
            if i == 0 {
                out.append(" OFFSET ");
            } else {
                out.append(" ");
            }
            self.offsets[i].write(out);
            proof {
                let next = self.offsets@.take(i + 1);
                assert(next.drop_last() =~= self.offsets@.take(i as int));
                assert(next.last() == self.offsets@[i as int]);
                assert(out@ =~= base + SharingView::offsets_rendered(next));
            }
            i = i + 1;
        }
        assert(self.offsets@.take(i as int) =~= self.offsets@);
        assert(out@ =~= old(out)@ + self@.rendered());
    }
}

/// A named region of classical memory.
#[derive(Debug, Hash)]
pub struct Declaration {
    pub name: String,
    pub size: Vector,
    pub sharing: Option<Sharing>,
}

pub struct DeclarationView {
    pub name: Seq<char>,
    pub size: Vector,
    pub sharing: Option<SharingView>,
}

impl View for Declaration {
    type V = DeclarationView;

    open spec fn view(&self) -> DeclarationView {
        DeclarationView {
            name: self.name@,
            size: self.size,
            sharing: match self.sharing {
                Some(s) => Some(s@),
                None => None,
            },
        }
    }
}

impl DeclarationView {
    /// `DECLARE name TYPE[length]`, and the sharing clause if there is one.
    pub open spec fn rendered(self) -> Seq<char> {
        "DECLARE "@ + self.name + " "@ + self.size.rendered() + match self.sharing {
            Some(s) => s.rendered(),
            None => Seq::<char>::empty(),
        }
    }

    /// Whether the declaration allocates storage of its own.
    pub open spec fn allocates(self) -> bool {
        self.sharing is None
    }
}

impl PartialEq for Declaration {
    fn eq(&self, other: &Self) -> (r: bool) {
        let same_sharing = match (&self.sharing, &other.sharing) {
            (Some(a), Some(b)) => a == b,
            (None, None) => true,
            _ => false,
        };
        self.name == other.name && self.size == other.size && same_sharing
    }
}

impl PartialEqSpecImpl for Declaration {
    open spec fn obeys_eq_spec() -> bool {
        true
    }

    open spec fn eq_spec(&self, other: &Self) -> bool {
        self@ == other@
    }
}

impl Eq for Declaration {

}

impl Clone for Declaration {
    fn clone(&self) -> (r: Self)
        ensures
            r@ == self@,
    {
        let sharing = match &self.sharing {
            Some(s) => Some(s.clone()),
            None => None,
        };
        Declaration { name: self.name.clone(), size: self.size, sharing }
    }
}

impl Declaration {
    pub fn new(name: String, size: Vector, sharing: Option<Sharing>) -> (r: Self)
        ensures
            r.name == name,
            r.size == size,
            r.sharing == sharing,
    {
        Declaration { name, size, sharing }
    }

    /// Whether the declaration allocates storage of its own, rather than overlaying
    /// another region.
    pub fn allocates(&self) -> (r: bool)
        ensures
            r == self@.allocates(),
    {
        self.sharing.is_none()
    }

    pub fn to_quil(&self) -> (r: String)
        ensures
            r@ == self@.rendered(),
    {
        let mut out = String::new();
        out.append("DECLARE ");
        out.append(self.name.as_str());
        out.append(" ");
        self.size.write(&mut out);
        match &self.sharing {
            Some(s) => {
                s.write(&mut out);
            },
            None => {},
        }
        assert(out@ =~= self@.rendered());
        out
    }
}

/// What a parser reports about text that it cannot read: the text itself.
#[derive(Debug, PartialEq, Eq)]
pub struct SyntaxError {
    pub input: String,
}

impl Clone for SyntaxError {
    fn clone(&self) -> (r: Self)
        ensures
            r.input@ == self.input@,
    {
        SyntaxError { input: self.input.clone() }
    }
}

/// One element of a region: the region's name and the element's index.
#[derive(Debug, Hash)]
pub struct MemoryReference {
    pub name: String,
    pub index: u64,
}

pub struct MemoryReferenceView {
    pub name: Seq<char>,
    pub index: u64,
}

impl View for MemoryReference {
    type V = MemoryReferenceView;

    open spec fn view(&self) -> MemoryReferenceView {
        MemoryReferenceView { name: self.name@, index: self.index }
    }
}

impl MemoryReferenceView {
    /// `name[index]`.
    pub open spec fn rendered(self) -> Seq<char> {
        self.name + "["@ + decimal(self.index as nat) + "]"@
    }

    /// Whether `text` reads as a reference whose name is the first `k` characters: a name,
    /// `[`, a numeral that fits 64 bits, `]`, and nothing else.
    pub open spec fn splits_at(text: Seq<char>, k: int) -> bool {
        &&& 0 < k
        &&& k + 2 < text.len()
        &&& is_name(text.take(k))
        &&& text[k] == '['
        &&& text.last() == ']'
        &&& is_numeral(text.subrange(k + 1, text.len() - 1))
        &&& numeral_value(text.subrange(k + 1, text.len() - 1)) <= u64::MAX
    }

    /// The reference that `text` denotes, if it denotes one.
    pub open spec fn parsed(text: Seq<char>) -> Option<MemoryReferenceView> {
        if exists|k: int| Self::splits_at(text, k) {
            let k = choose|k: int| Self::splits_at(text, k);
            Some(
                MemoryReferenceView {
                    name: text.take(k),
                    index: numeral_value(text.subrange(k + 1, text.len() - 1)) as u64,
                },
            )
        } else {
            None
        }
    }

    /// A text splits into name and index in one way at most: the name ends where the
    /// first character stands that no name can hold.
    pub proof fn lemma_split_position(text: Seq<char>, k: int)
        requires
            0 <= k <= text.len(),
            forall|i: int| 0 <= i < k ==> is_name_char(#[trigger] text[i]),
            k == text.len() || !is_name_char(text[k]),
        ensures
            forall|j: int| Self::splits_at(text, j) ==> j == k,
    {
        assert forall|j: int| Self::splits_at(text, j) implies j == k by {
            if j < k {
                assert(is_name_char(text[j]));
            } else if j > k {
                assert(text.take(j)[k] == text[k]);
                assert(is_name_char(text.take(j)[k]));
            }
        }
    }

    /// Reading what was rendered gives the reference back, whenever its name is a name.
    pub proof fn lemma_round_trip(self)
        requires
            is_name(self.name),
        ensures
            Self::parsed(self.rendered()) == Some(self),
    {
        reveal_strlit("[");
        reveal_strlit("]");
        let text = self.rendered();
        let k = self.name.len() as int;
        let digits = decimal(self.index as nat);
        lemma_decimal_round_trip(self.index as nat);
        assert(text.take(k) =~= self.name);
        assert(text.subrange(k + 1, text.len() - 1) =~= digits);
        assert(text[k] == '[');
        assert(Self::splits_at(text, k));
        assert forall|i: int| 0 <= i < k implies is_name_char(#[trigger] text[i]) by {
            assert(text[i] == self.name[i]);
        }
        Self::lemma_split_position(text, k);
        let j = choose|j: int| Self::splits_at(text, j);
        assert(j == k);
    }
}

impl PartialEq for MemoryReference {
    fn eq(&self, other: &Self) -> (r: bool) {
        self.name == other.name && self.index == other.index
    }
}

impl PartialEqSpecImpl for MemoryReference {
    open spec fn obeys_eq_spec() -> bool {
        true
    }

    open spec fn eq_spec(&self, other: &Self) -> bool {
        self@ == other@
    }
}

impl Eq for MemoryReference {

}

impl Clone for MemoryReference {
    fn clone(&self) -> (r: Self)
        ensures
            r@ == self@,
    {
        MemoryReference { name: self.name.clone(), index: self.index }
    }
}

impl MemoryReference {
    pub fn new(name: String, index: u64) -> (r: Self)
        ensures
            r.name == name,
            r.index == index,
    {
        MemoryReference { name, index }
    }

    pub(crate) fn write(&self, out: &mut String)
        ensures
            final(out)@ == old(out)@ + self@.rendered(),
    {
        out.append(self.name.as_str());
        out.append("[");
        push_decimal(out, self.index);
        out.append("]");
        assert(out@ =~= old(out)@ + self@.rendered());
    }

    pub fn to_quil(&self) -> (r: String)
        ensures
            r@ == self@.rendered(),
    {
        let mut out = String::new();
        self.write(&mut out);
        assert(out@ =~= self@.rendered());
        out
    }

    /// Reads `name[index]`. Any other text is a syntax error, which carries the text.
    pub fn parse(input: &str) -> (r: Result<MemoryReference, SyntaxError>)
        ensures
            match r {
                Ok(m) => MemoryReferenceView::parsed(input@) == Some(m@),
                Err(e) => MemoryReferenceView::parsed(input@) is None && e.input@ == input@,
            },
    {
        let chars = chars_of(input);
        let n = chars.len();
        let mut k: usize = 0;
        while k < n && name_char(chars[k])
            invariant
                k <= n,
                n == chars.len(),
                forall|i: int| 0 <= i < k ==> is_name_char(#[trigger] chars@[i]),
            decreases n - k,
        {
            k = k + 1;
        }
        proof {
            MemoryReferenceView::lemma_split_position(input@, k as int);
        }
        if k == 0 || n < 3 || k > n - 3 {
            return Err(SyntaxError { input: String::from_str(input) });
        }
        let first = chars[0];
        if ('0' <= first && first <= '9') || first == '-' || chars[k] != '[' || chars[n - 1] != ']' {
            assert(input@.take(k as int)[0] == first);
            return Err(SyntaxError { input: String::from_str(input) });
        }
        match read_numeral(&chars, k + 1, n - 1) {
            None => Err(SyntaxError { input: String::from_str(input) }),
            Some(index) => {
                let name = String::from_str(input.substring_char(0, k));
                proof {
                    assert(name@ =~= input@.take(k as int));
                    assert forall|i: int| 0 <= i < k implies is_name_char(
                        #[trigger] input@.take(k as int)[i],
                    ) by {
                        assert(input@.take(k as int)[i] == chars@[i]);
                    }
                    assert(MemoryReferenceView::splits_at(input@, k as int));
                    let j = choose|j: int| MemoryReferenceView::splits_at(input@, j);
                    assert(j == k);
                }
                Ok(MemoryReference { name, index })
            },
        }
    }
}

} // verus!
