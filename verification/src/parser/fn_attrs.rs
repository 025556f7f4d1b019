//! Function attributes: a set of flags, some of which carry data.
use vstd::prelude::*;

use crate::lexer::Token;
use crate::parser::modifiers::bool_text;
use crate::text::str_equals;

verus! {

/// [`llvm.cold`](https://llvm.org/docs/LangRef.html#function-attributes)
pub const ATTR_COLD: u8 = 0b0000_0001;

/// [`llvm.hot`](https://llvm.org/docs/LangRef.html#function-attributes)
pub const ATTR_HOT: u8 = 0b0000_0010;

/// [`llvm.strictfp`](https://llvm.org/docs/LangRef.html#function-attributes)
pub const ATTR_STRICTFP: u8 = 0b0000_0100;

/// [`llvm.inlinehint`](https://llvm.org/docs/LangRef.html#function-attributes)
pub const ATTR_TRY_INLINE: u8 = 0b0000_1000;

/// [`llvm.alwaysinline`](https://llvm.org/docs/LangRef.html#function-attributes)
pub const ATTR_FORCE_INLINE: u8 = 0b0001_0000;

/// A method attached to a type.
pub const ATTR_METHOD: u8 = 0b0010_0000;

/// An explicit purity.
pub const ATTR_PURITY: u8 = 0b0100_0000;

/// One attribute of a function.
#[derive(Debug, PartialEq, Eq)]
pub enum Attribute {
    /// `cold`
    Cold,
    /// `hot`
    Hot,
    /// `strictfp`
    Strictfp,
    /// `try_inline`
    TryInline,
    /// `force_inline`
    ForceInline,
    /// `method[Type]`: a method of the named type.
    Method(String),
    /// Whether a function is effectful (impure) or effectless (pure).
    Purity(bool),
}

/// The mathematical value of an [`Attribute`].
pub enum SpecAttribute {
    Cold,
    Hot,
    Strictfp,
    TryInline,
    ForceInline,
    Method(Seq<char>),
    Purity(bool),
}

impl View for Attribute {
    type V = SpecAttribute;

    open spec fn view(&self) -> SpecAttribute {
        match self {
            Attribute::Cold => SpecAttribute::Cold,
            Attribute::Hot => SpecAttribute::Hot,
            Attribute::Strictfp => SpecAttribute::Strictfp,
            Attribute::TryInline => SpecAttribute::TryInline,
            Attribute::ForceInline => SpecAttribute::ForceInline,
            Attribute::Method(s) => SpecAttribute::Method(s@),
            Attribute::Purity(b) => SpecAttribute::Purity(*b),
        }
    }
}

impl SpecAttribute {
    /// The flag of this attribute.
    pub open spec fn flag(self) -> u8 {
        match self {
            SpecAttribute::Cold => ATTR_COLD,
            SpecAttribute::Hot => ATTR_HOT,
            SpecAttribute::Strictfp => ATTR_STRICTFP,
            SpecAttribute::TryInline => ATTR_TRY_INLINE,
            SpecAttribute::ForceInline => ATTR_FORCE_INLINE,
            SpecAttribute::Method(_) => ATTR_METHOD,
            SpecAttribute::Purity(_) => ATTR_PURITY,
        }
    }

    /// Whether this attribute carries data besides its flag.
    pub open spec fn has_data(self) -> bool {
        self is Method || self is Purity
    }
}

impl Attribute {
    /// Whether this attribute carries data besides its flag.
    pub fn carries_data(&self) -> (res: bool)
        ensures
            res == self@.has_data(),
    {
        match self {
            Attribute::Method(_) | Attribute::Purity(_) => true,
            _ => false,
        }
    }

    /// The flag of this attribute.
    pub fn discriminant(&self) -> (res: u8)
        ensures
            res == self@.flag(),
    {
        match self {
            Attribute::Cold => ATTR_COLD,
            Attribute::Hot => ATTR_HOT,
            Attribute::Strictfp => ATTR_STRICTFP,
            Attribute::TryInline => ATTR_TRY_INLINE,
            Attribute::ForceInline => ATTR_FORCE_INLINE,
            Attribute::Method(_) => ATTR_METHOD,
            Attribute::Purity(_) => ATTR_PURITY,
        }
    }

    /// Whether the two attributes are the same.
    pub fn same_as(&self, other: &Attribute) -> (res: bool)
        ensures
            res == (self@ == other@),
    {
        match (self, other) {
            (Attribute::Cold, Attribute::Cold) => true,
            (Attribute::Hot, Attribute::Hot) => true,
            (Attribute::Strictfp, Attribute::Strictfp) => true,
            (Attribute::TryInline, Attribute::TryInline) => true,
            (Attribute::ForceInline, Attribute::ForceInline) => true,
            (Attribute::Method(a), Attribute::Method(b)) => str_equals(a.as_str(), b.as_str()),
            (Attribute::Purity(a), Attribute::Purity(b)) => *a == *b,
            _ => false,
        }
    }

    fn duplicate(&self) -> (res: Attribute)
        ensures
            res@ == self@,
    {
        match self {
            Attribute::Cold => Attribute::Cold,
            Attribute::Hot => Attribute::Hot,
            Attribute::Strictfp => Attribute::Strictfp,
            Attribute::TryInline => Attribute::TryInline,
            Attribute::ForceInline => Attribute::ForceInline,
            Attribute::Method(s) => Attribute::Method(s.clone()),
            Attribute::Purity(b) => Attribute::Purity(*b),
        }
    }
}

/// The mathematical value of an [`Attributes`]: the set flags and the
/// attributes that carry data, in the order they were added.
pub struct SpecAttributes {
    pub state: u8,
    pub attached: Seq<SpecAttribute>,
}

/// The purity that the first purity attribute of `attached` carries.
pub open spec fn first_purity(attached: Seq<SpecAttribute>) -> Option<bool>
    decreases attached.len(),
{
    if attached.len() == 0 {
        None
    } else {
        match attached[0] {
            SpecAttribute::Purity(b) => Some(b),
            _ => first_purity(attached.drop_first()),
        }
    }
}

impl SpecAttributes {
    /// No attribute.
    pub open spec fn empty() -> SpecAttributes {
        SpecAttributes { state: 0, attached: Seq::empty() }
    }

    /// Every flag that is set comes with its data, where it carries any, and
    /// a purity comes with its flag.
    pub open spec fn wf(self) -> bool {
        &&& (self.state & ATTR_PURITY != 0 ==> first_purity(self.attached) is Some)
        &&& (self.state & ATTR_PURITY == 0 ==> first_purity(self.attached) is None)
        &&& forall|i: int| 0 <= i < self.attached.len() ==> (#[trigger] self.attached[i]).has_data()
    }

    /// Adds one attribute: its flag, and the attribute itself where it carries data.
    pub open spec fn add(self, attribute: SpecAttribute) -> SpecAttributes {
        SpecAttributes {
            state: self.state | attribute.flag(),
            attached: if attribute.has_data() {
                self.attached.push(attribute)
            } else {
                self.attached
            },
        }
    }

    /// The explicit purity, where one was given.
    pub open spec fn purity(self) -> Option<bool> {
        if self.state & ATTR_PURITY == 0 {
            None
        } else {
            first_purity(self.attached)
        }
    }
}

/// Adds the attributes of `rhs` after the first `i`, skipping those that
/// `attached` already holds.
pub open spec fn merge_attached(attached: Seq<SpecAttribute>, rhs: Seq<SpecAttribute>, i: int) -> Seq<
    SpecAttribute,
>
    decreases rhs.len() - i,
{
    if i >= rhs.len() || i < 0 {
        attached
    } else if attached.contains(rhs[i]) {
        merge_attached(attached, rhs, i + 1)
    } else {
        merge_attached(attached.push(rhs[i]), rhs, i + 1)
    }
}

/// The attributes `a` with all of `b` added: the flags of both, and the
/// attributes that `b` carries and `a` does not hold yet.  Where `b` has no
/// flag, it adds nothing.
pub open spec fn merged(a: SpecAttributes, b: SpecAttributes) -> SpecAttributes {
    if b.state == 0 {
        a
    } else {
        SpecAttributes { state: a.state | b.state, attached: merge_attached(a.attached, b.attached, 0) }
    }
}

/// The attributes of a function.
#[derive(Debug, PartialEq, Eq)]
pub struct Attributes {
    state: u8,
    attached_data: Vec<Attribute>,
}

impl View for Attributes {
    type V = SpecAttributes;

    closed spec fn view(&self) -> SpecAttributes {
        SpecAttributes {
            state: self.state,
            attached: self.attached_data@.map_values(|a: Attribute| a@),
        }
    }
}

proof fn lemma_flag_bits(s: u8, d: u8)
    ensures
        (s | d) & d == d,
        d & ATTR_PURITY == 0 ==> ((s | d) & ATTR_PURITY != 0 ==> s & ATTR_PURITY != 0),
        (s | d) & ATTR_PURITY == 0 ==> s & ATTR_PURITY == 0,
{
    assert((s | d) & d == d) by (bit_vector);
    assert(d & 0x40 == 0 ==> ((s | d) & 0x40 != 0 ==> s & 0x40 != 0)) by (bit_vector);
    assert((s | d) & 0x40 == 0 ==> s & 0x40 == 0) by (bit_vector);
}

proof fn lemma_flag_purity(a: SpecAttribute)
    ensures
        a is Purity || a.flag() & ATTR_PURITY == 0,
{
    assert(1u8 & 0x40 == 0) by (bit_vector);
    assert(2u8 & 0x40 == 0) by (bit_vector);
    assert(4u8 & 0x40 == 0) by (bit_vector);
    assert(8u8 & 0x40 == 0) by (bit_vector);
    assert(16u8 & 0x40 == 0) by (bit_vector);
    assert(32u8 & 0x40 == 0) by (bit_vector);
}

proof fn lemma_first_purity_push(attached: Seq<SpecAttribute>, a: SpecAttribute)
    ensures
        first_purity(attached) is Some ==> first_purity(attached.push(a)) == first_purity(attached),
        a is Purity ==> first_purity(attached.push(a)) is Some,
    decreases attached.len(),
{
    if attached.len() > 0 {
        assert(attached.push(a).drop_first() =~= attached.drop_first().push(a));
        lemma_first_purity_push(attached.drop_first(), a);
    }
}

proof fn lemma_first_purity_contains(attached: Seq<SpecAttribute>, b: bool)
    requires
        attached.contains(SpecAttribute::Purity(b)),
    ensures
        first_purity(attached) is Some,
    decreases attached.len(),
{
    let i = choose|i: int| 0 <= i < attached.len() && attached[i] == SpecAttribute::Purity(b);
    if i > 0 {
        assert(attached.drop_first()[i - 1] == attached[i]);
        lemma_first_purity_contains(attached.drop_first(), b);
    }
}

impl Attributes {
    /// No attribute.
    pub fn default() -> (res: Self)
        ensures
            res@ == SpecAttributes::empty(),
            res@.wf(),
    {
        let res = Attributes { state: 0, attached_data: Vec::new() };
        assert(res@.attached =~= Seq::<SpecAttribute>::empty());
        assert(0u8 & 0x40u8 == 0) by (bit_vector);
        res
    }

    /// Whether the two hold the same flags and the same attributes.
    pub fn same_as(&self, other: &Attributes) -> (res: bool)
        ensures
            res == (self@ == other@),
    {
        if self.state != other.state {
            return false;
        }
        let n = self.attached_data.len();
        if n != other.attached_data.len() {
            assert(self@.attached.len() != other@.attached.len());
            return false;
        }
        for i in 0..n
            invariant
                n == self.attached_data.len(),
                n == other.attached_data.len(),
                forall|j: int| 0 <= j < i ==> self@.attached[j] == other@.attached[j],
        {
            assert(self@.attached[i as int] == self.attached_data@[i as int]@);
            assert(other@.attached[i as int] == other.attached_data@[i as int]@);
            if !self.attached_data[i].same_as(&other.attached_data[i]) {
                return false;
            }
        }
        assert(self@.attached =~= other@.attached);
        true
    }

    /// Whether `cold` is set.
    pub fn is_cold(&self) -> (res: bool)
        ensures
            res == (self@.state & ATTR_COLD != 0),
    {
        self.state & ATTR_COLD != 0
    }

    /// Whether `hot` is set.
    pub fn is_hot(&self) -> (res: bool)
        ensures
            res == (self@.state & ATTR_HOT != 0),
    {
        self.state & ATTR_HOT != 0
    }

    /// Whether `strictfp` is set.
    pub fn is_strictfp(&self) -> (res: bool)
        ensures
            res == (self@.state & ATTR_STRICTFP != 0),
    {
        self.state & ATTR_STRICTFP != 0
    }

    /// Whether `try_inline` is set.
    pub fn is_try_inline(&self) -> (res: bool)
        ensures
            res == (self@.state & ATTR_TRY_INLINE != 0),
    {
        self.state & ATTR_TRY_INLINE != 0
    }

    /// Whether `force_inline` is set.
    pub fn is_force_inline(&self) -> (res: bool)
        ensures
            res == (self@.state & ATTR_FORCE_INLINE != 0),
    {
        self.state & ATTR_FORCE_INLINE != 0
    }

    /// Whether `method` is set.
    pub fn is_method(&self) -> (res: bool)
        ensures
            res == (self@.state & ATTR_METHOD != 0),
    {
        self.state & ATTR_METHOD != 0
    }

    /// The explicit purity, where one was given.
    pub fn purity(&self) -> (res: Option<bool>)
        requires
            self@.wf(),
        ensures
            res == self@.purity(),
    {
        if self.state & ATTR_PURITY == 0 {
            return None;
        }
        let n = self.attached_data.len();
        assert(self@.attached.subrange(0, n as int) =~= self@.attached);
        for i in 0..n
            invariant
                n == self.attached_data.len(),
                self@.wf(),
                self.state & ATTR_PURITY != 0,
                first_purity(self@.attached) == first_purity(self@.attached.subrange(i as int, n as int)),
        {
            let ghost rest = self@.attached.subrange(i as int, n as int);
            assert(rest.drop_first() =~= self@.attached.subrange(i + 1, n as int));
            if let Attribute::Purity(b) = &self.attached_data[i] {
                return Some(*b);
            }
        }
        assert(self@.attached.subrange(n as int, n as int) =~= Seq::<SpecAttribute>::empty());
        None
    }

    /// Whether the flag of `attribute` is set.
    pub fn contains(&self, attribute: &Attribute) -> (res: bool)
        ensures
            res == (self@.state & attribute@.flag() != 0),
    {
        self.state & attribute.discriminant() != 0
    }

    /// These attributes with `attribute` added.
    pub fn with_attr(self, attribute: Attribute) -> (res: Self)
        ensures
            res@ == self@.add(attribute@),
            self@.wf() ==> res@.wf(),
    {
        let mut res = self;
        res.bitor_assign(attribute);
        res
    }

    /// Adds `rhs`: its flag, and `rhs` itself where it carries data.
    pub fn bitor_assign(&mut self, rhs: Attribute)
        ensures
            final(self)@ == old(self)@.add(rhs@),
            old(self)@.wf() ==> final(self)@.wf(),
    {
        let ghost before = self@;
        let d = rhs.discriminant();
        self.state = self.state | d;
        if rhs.carries_data() {
            self.attached_data.push(rhs);
            assert(self@.attached =~= before.attached.push(rhs@));
        } else {
            assert(self@.attached =~= before.attached);
        }
        proof {
            lemma_flag_bits(before.state, d);
            lemma_flag_purity(rhs@);
            lemma_first_purity_push(before.attached, rhs@);
            lemma_first_purity_push_other(before.attached, rhs@);
            if before.wf() {
                assert forall|i: int| 0 <= i < self@.attached.len() implies (
                #[trigger] self@.attached[i]).has_data() by {
                    if i < before.attached.len() {
                        assert(self@.attached[i] == before.attached[i]);
                    }
                }
            }
        }
    }

    /// Adds all of `rhs`: its flags, and the attributes it carries that are not
    /// here yet.
    pub fn bitor_assign_attributes(&mut self, rhs: Self)
        ensures
            rhs@.state == 0 ==> final(self)@ == old(self)@,
            rhs@.state != 0 ==> final(self)@ == (SpecAttributes {
                state: old(self)@.state | rhs@.state,
                attached: merge_attached(old(self)@.attached, rhs@.attached, 0),
            }),
            final(self)@ == merged(old(self)@, rhs@),
            old(self)@.wf() && rhs@.wf() ==> final(self)@.wf(),
    {
        if rhs.state == 0 {
            return;
        }
        let ghost before = self@;
        let ghost r = rhs@;
        self.state = self.state | rhs.state;
        let n = rhs.attached_data.len();
        for i in 0..n
            invariant
                n == rhs.attached_data.len(),
                r == rhs@,
                self@.state == before.state | r.state,
                merge_attached(self@.attached, r.attached, i as int) == merge_attached(
                    before.attached,
                    r.attached,
                    0,
                ),
                before.wf() && r.wf() ==> forall|j: int|
                    0 <= j < self@.attached.len() ==> (#[trigger] self@.attached[j]).has_data(),
                before.wf() && r.wf() ==> (before.state & ATTR_PURITY != 0 ==> first_purity(
                    self@.attached,
                ) is Some),
                before.wf() && r.wf() ==> (forall|j: int|
                    0 <= j < i ==> (#[trigger] r.attached[j]) is Purity ==> self@.attached.contains(
                        r.attached[j],
                    )),
        {
            let attr = &rhs.attached_data[i];
            let ghost a = r.attached[i as int];
            assert(attr@ == a);
            let mut present = false;
            let m = self.attached_data.len();
            for k in 0..m
                invariant
                    m == self.attached_data.len(),
                    attr@ == a,
                    present == exists|j: int| 0 <= j < k && self@.attached[j] == a,
            {
                assert(self@.attached[k as int] == self.attached_data@[k as int]@);
                if self.attached_data[k].same_as(attr) {
                    present = true;
                }
            }
            let ghost prev = self@.attached;
            if !present {
                assert(!prev.contains(a));
                self.attached_data.push(attr.duplicate());
                assert(self@.attached =~= prev.push(a));
                proof {
                    lemma_first_purity_push(prev, a);
                    assert(self@.attached[prev.len() as int] == a);
                }
            } else {
                proof {
                    let j = choose|j: int| 0 <= j < m && prev[j] == a;
                    assert(prev.contains(a));
                }
            }
            proof {
                if before.wf() && r.wf() {
                    assert forall|j: int| 0 <= j < self@.attached.len() implies (
                    #[trigger] self@.attached[j]).has_data() by {
                        if j < prev.len() {
                            assert(self@.attached[j] == prev[j]);
                        } else {
                            assert(r.attached[i as int].has_data());
                        }
                    }
                    assert forall|j: int|
                        0 <= j < i + 1 && (#[trigger] r.attached[j]) is Purity implies self@.attached.contains(
                        r.attached[j],
                    ) by {
                        if j < i {
                            let k = choose|k: int| 0 <= k < prev.len() && prev[k] == r.attached[j];
                            assert(self@.attached[k] == prev[k]);
                        } else if !present {
                            assert(self@.attached[prev.len() as int] == a);
                        }
                    }
                }
            }
        }
        proof {
            lemma_flag_bits(before.state, r.state);
            if before.wf() && r.wf() && self@.state & ATTR_PURITY == 0 {
                let ghost s1 = self@.state;
                let ghost bs = before.state;
                let ghost rs = r.state;
                assert(s1 & 0x40 == 0 ==> (bs & 0x40 == 0 && rs & 0x40 == 0)) by (bit_vector)
                    requires
                        s1 == bs | rs,
                ;
                lemma_merge_no_purity(before.attached, r.attached, 0);
            }
            if before.wf() && r.wf() && self@.state & ATTR_PURITY != 0 && before.state & ATTR_PURITY
                == 0 {
                let ghost s1 = self@.state;
                let ghost bs = before.state;
                let ghost rs = r.state;
                assert(s1 & 0x40 != 0 ==> (bs & 0x40 != 0 || rs & 0x40 != 0)) by (bit_vector)
                    requires
                        s1 == bs | rs,
                ;
                lemma_first_purity_exists_index(r.attached);
                let j = choose|j: int| 0 <= j < r.attached.len() && r.attached[j] is Purity;
                let b = r.attached[j]->Purity_0;
                assert(self@.attached.contains(r.attached[j]));
                lemma_first_purity_contains(self@.attached, b);
            }
        }
    }
}

/// Pushing an attribute other than a purity keeps a list without purity so.
proof fn lemma_first_purity_push_other(attached: Seq<SpecAttribute>, a: SpecAttribute)
    ensures
        first_purity(attached) is None && !(a is Purity) ==> first_purity(attached.push(a)) is None,
    decreases attached.len(),
{
    if attached.len() > 0 {
        assert(attached.push(a)[0] == attached[0]);
        assert(attached.push(a).drop_first() =~= attached.drop_first().push(a));
        lemma_first_purity_push_other(attached.drop_first(), a);
    } else {
        assert(attached.push(a)[0] == a);
        assert(attached.push(a).drop_first() =~= Seq::<SpecAttribute>::empty());
        assert(first_purity(Seq::<SpecAttribute>::empty()) is None);
    }
}

/// Merging two lists without purity gives a list without purity.
proof fn lemma_merge_no_purity(attached: Seq<SpecAttribute>, rhs: Seq<SpecAttribute>, i: int)
    requires
        first_purity(attached) is None,
        first_purity(rhs) is None,
    ensures
        first_purity(merge_attached(attached, rhs, i)) is None,
    decreases rhs.len() - i,
{
    if 0 <= i < rhs.len() && !attached.contains(rhs[i]) {
        if rhs[i] is Purity {
            assert(rhs.contains(rhs[i]));
            lemma_first_purity_contains(rhs, rhs[i]->Purity_0);
        }
        lemma_first_purity_push_other(attached, rhs[i]);
        lemma_merge_no_purity(attached.push(rhs[i]), rhs, i + 1);
    } else if 0 <= i < rhs.len() {
        lemma_merge_no_purity(attached, rhs, i + 1);
    }
}

proof fn lemma_first_purity_exists_index(attached: Seq<SpecAttribute>)
    requires
        first_purity(attached) is Some,
    ensures
        exists|j: int| 0 <= j < attached.len() && attached[j] is Purity,
    decreases attached.len(),
{
    if !(attached[0] is Purity) {
        lemma_first_purity_exists_index(attached.drop_first());
        let j = choose|j: int|
            0 <= j < attached.drop_first().len() && attached.drop_first()[j] is Purity;
        assert(attached[j + 1] is Purity);
    }
}

/// The attribute flag of an LLVM attribute keyword.
pub fn from_token(token: &Token) -> (res: Option<u8>)
    ensures
        res == match *token {
            Token::Cold => Some(ATTR_COLD),
            Token::Hot => Some(ATTR_HOT),
            Token::StrictFloatingPoint => Some(ATTR_STRICTFP),
            Token::TryInline => Some(ATTR_TRY_INLINE),
            Token::ForceInline => Some(ATTR_FORCE_INLINE),
            _ => None,
        },
{
    match *token {
        Token::Cold => Some(ATTR_COLD),
        Token::Hot => Some(ATTR_HOT),
        Token::StrictFloatingPoint => Some(ATTR_STRICTFP),
        Token::TryInline => Some(ATTR_TRY_INLINE),
        Token::ForceInline => Some(ATTR_FORCE_INLINE),
        _ => None,
    }
}

fn append_bool(s: &mut String, b: bool)
    ensures
        final(s)@ == old(s)@ + bool_text(b),
{
    if b {
        s.append("true");
    } else {
        s.append("false");
    }
}

/// `Some(true)`, `Some(false)` or `None`.
pub open spec fn option_bool_text(o: Option<bool>) -> Seq<char> {
    match o {
        Some(b) => "Some("@ + bool_text(b) + ")"@,
        None => "None"@,
    }
}

impl Attributes {
    /// These attributes in the layout of a derived `Debug`: each flag, and the
    /// explicit purity.
    pub fn debug_text(&self) -> (res: String)
        requires
            self@.wf(),
        ensures
            res@ == "Attributes { is_cold: "@ + bool_text(self@.state & ATTR_COLD != 0)
                + ", is_hot: "@ + bool_text(self@.state & ATTR_HOT != 0) + ", is_strictfp: "@
                + bool_text(self@.state & ATTR_STRICTFP != 0) + ", is_try_inline: "@ + bool_text(
                self@.state & ATTR_TRY_INLINE != 0,
            ) + ", is_force_inline: "@ + bool_text(self@.state & ATTR_FORCE_INLINE != 0)
                + ", is_method: "@ + bool_text(self@.state & ATTR_METHOD != 0)
                + ", explicit_purity: "@ + option_bool_text(self@.purity()) + " }"@,
    {
        let purity = self.purity();
        let mut s = String::from_str("Attributes { is_cold: ");
        append_bool(&mut s, self.is_cold());
        s.append(", is_hot: ");
        append_bool(&mut s, self.is_hot());
        s.append(", is_strictfp: ");
        append_bool(&mut s, self.is_strictfp());
        s.append(", is_try_inline: ");
        append_bool(&mut s, self.is_try_inline());
        s.append(", is_force_inline: ");
        append_bool(&mut s, self.is_force_inline());
        s.append(", is_method: ");
        append_bool(&mut s, self.is_method());
        s.append(", explicit_purity: ");
        append_option_bool(&mut s, purity);
        s.append(" }");
        s
    }
}

fn append_option_bool(s: &mut String, o: Option<bool>)
    ensures
        final(s)@ == old(s)@ + option_bool_text(o),
{
    match o {
        Some(b) => {
            s.append("Some(");
            append_bool(s, b);
            s.append(")");
        },
        None => s.append("None"),
    }
}

/// The text of the attribute flags of `val`, in the layout of a derived `Debug`.
pub fn fmt_attributes(val: u8) -> (res: String)
    ensures
        res@ == "Attributes { is_cold: "@ + bool_text(val & ATTR_COLD != 0) + ", is_hot: "@
            + bool_text(val & ATTR_HOT != 0) + ", is_strictfp: "@ + bool_text(
            val & ATTR_STRICTFP != 0,
        ) + ", is_try_inline: "@ + bool_text(val & ATTR_TRY_INLINE != 0) + ", is_force_inline: "@
            + bool_text(val & ATTR_FORCE_INLINE != 0) + " }"@,
{
    let mut s = String::from_str("Attributes { is_cold: ");
    append_bool(&mut s, val & ATTR_COLD != 0);
    s.append(", is_hot: ");
    append_bool(&mut s, val & ATTR_HOT != 0);
    s.append(", is_strictfp: ");
    append_bool(&mut s, val & ATTR_STRICTFP != 0);
    s.append(", is_try_inline: ");
    append_bool(&mut s, val & ATTR_TRY_INLINE != 0);
    s.append(", is_force_inline: ");
    append_bool(&mut s, val & ATTR_FORCE_INLINE != 0);
    s.append(" }");
    s
}

} // verus!

verus! {

/// With no purity among `attached`, a purity attribute pushed after them is
/// the first.
proof fn lemma_first_purity_after(attached: Seq<SpecAttribute>, b: bool)
    ensures
        first_purity(attached.push(SpecAttribute::Purity(b))) == Some(
            match first_purity(attached) {
                Some(p) => p,
                None => b,
            },
        ),
    decreases attached.len(),
{
    if attached.len() > 0 {
        assert(attached.push(SpecAttribute::Purity(b)).drop_first() =~= attached.drop_first().push(
            SpecAttribute::Purity(b),
        ));
        lemma_first_purity_after(attached.drop_first(), b);
    } else {
        assert(attached.push(SpecAttribute::Purity(b))[0] == SpecAttribute::Purity(b));
    }
}

/// Adding an attribute sets its flag, so that the attributes contain it; and
/// it clears no flag that was set.
pub proof fn law_add_contains(attributes: SpecAttributes, attribute: SpecAttribute, other: SpecAttribute)
    ensures
        attributes.add(attribute).state & attribute.flag() != 0,
        attributes.state & other.flag() != 0 ==> attributes.add(attribute).state & other.flag() != 0,
{
    let s = attributes.state;
    let d = attribute.flag();
    let f = other.flag();
    assert(d != 0);
    assert(d != 0 ==> (s | d) & d != 0) by (bit_vector);
    assert(s & f != 0 ==> (s | d) & f != 0) by (bit_vector);
}

/// The purity of attributes is the first one given: adding `Purity(b)` gives
/// the purity that was there already, or else `b`.
pub proof fn law_first_purity_wins(attributes: SpecAttributes, b: bool)
    ensures
        attributes.wf() ==> attributes.add(SpecAttribute::Purity(b)).purity() == Some(
            match attributes.purity() {
                Some(p) => p,
                None => b,
            },
        ),
        attributes.add(SpecAttribute::Purity(b)).purity() == Some(
            match first_purity(attributes.attached) {
                Some(p) => p,
                None => b,
            },
        ),
{
    law_add_contains(attributes, SpecAttribute::Purity(b), SpecAttribute::Purity(b));
    lemma_first_purity_after(attributes.attached, b);
}

/// The attributes `attrs` added to `out`, first to last.
pub open spec fn adds(out: SpecAttributes, attrs: Seq<SpecAttribute>) -> SpecAttributes
    decreases attrs.len(),
{
    if attrs.len() == 0 {
        out
    } else {
        adds(out.add(attrs[0]), attrs.drop_first())
    }
}

/// The flags of `attrs`, together.
pub open spec fn union_flags(attrs: Seq<SpecAttribute>) -> u8
    decreases attrs.len(),
{
    if attrs.len() == 0 {
        0
    } else {
        attrs[0].flag() | union_flags(attrs.drop_first())
    }
}

/// Adding attributes one after another sets exactly their flags, on top of
/// those that were set.
pub proof fn law_adds_union(out: SpecAttributes, attrs: Seq<SpecAttribute>)
    ensures
        adds(out, attrs).state == out.state | union_flags(attrs),
    decreases attrs.len(),
{
    if attrs.len() > 0 {
        law_adds_union(out.add(attrs[0]), attrs.drop_first());
        let s = out.state;
        let d = attrs[0].flag();
        let r = union_flags(attrs.drop_first());
        assert((s | d) | r == s | (d | r)) by (bit_vector);
    } else {
        let s = out.state;
        assert(s | 0u8 == s) by (bit_vector);
    }
}

/// A flag is among those of `attrs` exactly when one of `attrs` has it: the
/// order of the attributes, and how often one occurs, do not matter.
pub proof fn law_union_flags_members(attrs: Seq<SpecAttribute>, attribute: SpecAttribute)
    ensures
        union_flags(attrs) & attribute.flag() != 0 <==> exists|i: int|
            0 <= i < attrs.len() && (#[trigger] attrs[i]).flag() == attribute.flag(),
    decreases attrs.len(),
{
    let f = attribute.flag();
    if attrs.len() > 0 {
        law_union_flags_members(attrs.drop_first(), attribute);
        let d = attrs[0].flag();
        let r = union_flags(attrs.drop_first());
        assert((d | r) & f != 0 <==> (d & f != 0 || r & f != 0)) by (bit_vector);
        lemma_distinct_flags(attrs[0], attribute);
        if exists|i: int| 0 <= i < attrs.len() && (#[trigger] attrs[i]).flag() == f {
            let i = choose|i: int| 0 <= i < attrs.len() && (#[trigger] attrs[i]).flag() == f;
            if i > 0 {
                assert(attrs.drop_first()[i - 1] == attrs[i]);
            }
        }
        if exists|i: int| 0 <= i < attrs.drop_first().len() && (#[trigger] attrs.drop_first()[i]).flag() == f {
            let i = choose|i: int| 0 <= i < attrs.drop_first().len() && (#[trigger] attrs.drop_first()[i]).flag() == f;
            assert(attrs[i + 1] == attrs.drop_first()[i]);
        }
    } else {
        assert(0u8 & f == 0) by (bit_vector);
    }
}

/// Two flags share a bit only where they are the same flag.
proof fn lemma_distinct_flags(a: SpecAttribute, b: SpecAttribute)
    ensures
        a.flag() & b.flag() != 0 <==> a.flag() == b.flag(),
{
    let x = a.flag();
    let y = b.flag();
    assert(x == 1 || x == 2 || x == 4 || x == 8 || x == 16 || x == 32 || x == 64);
    assert(y == 1 || y == 2 || y == 4 || y == 8 || y == 16 || y == 32 || y == 64);
    assert((x == 1 || x == 2 || x == 4 || x == 8 || x == 16 || x == 32 || x == 64) && (y == 1 || y == 2
        || y == 4 || y == 8 || y == 16 || y == 32 || y == 64) ==> (x & y != 0 <==> x == y)) by (bit_vector);
}

/// An attribute is in a merge exactly where it is in `attached` or among
/// `rhs` from `i` on.
proof fn lemma_merge_contains(attached: Seq<SpecAttribute>, rhs: Seq<SpecAttribute>, i: int, x: SpecAttribute)
    requires
        0 <= i,
    ensures
        merge_attached(attached, rhs, i).contains(x) <==> attached.contains(x) || exists|j: int|
            i <= j < rhs.len() && rhs[j] == x,
    decreases rhs.len() - i,
{
    if i < rhs.len() {
        if attached.contains(rhs[i]) {
            lemma_merge_contains(attached, rhs, i + 1, x);
            if exists|j: int| i <= j < rhs.len() && rhs[j] == x {
                let j = choose|j: int| i <= j < rhs.len() && rhs[j] == x;
                if j == i {
                    assert(attached.contains(x));
                }
            }
        } else {
            let pushed = attached.push(rhs[i]);
            lemma_merge_contains(pushed, rhs, i + 1, x);
            if pushed.contains(x) && !attached.contains(x) {
                let k = choose|k: int| 0 <= k < pushed.len() && pushed[k] == x;
                if k < attached.len() {
                    assert(attached[k] == pushed[k]);
                }
                assert(rhs[i] == x);
            }
            if attached.contains(x) {
                let k = choose|k: int| 0 <= k < attached.len() && attached[k] == x;
                assert(pushed[k] == x);
            }
            if exists|j: int| i <= j < rhs.len() && rhs[j] == x {
                let j = choose|j: int| i <= j < rhs.len() && rhs[j] == x;
                if j == i {
                    assert(pushed[attached.len() as int] == x);
                }
            }
        }
    }
}

/// A merge keeps the first purity of `attached`, where it has one.
proof fn lemma_merge_keeps_purity(attached: Seq<SpecAttribute>, rhs: Seq<SpecAttribute>, i: int)
    requires
        first_purity(attached) is Some,
    ensures
        first_purity(merge_attached(attached, rhs, i)) == first_purity(attached),
    decreases rhs.len() - i,
{
    if 0 <= i < rhs.len() {
        if attached.contains(rhs[i]) {
            lemma_merge_keeps_purity(attached, rhs, i + 1);
        } else {
            lemma_first_purity_push(attached, rhs[i]);
            lemma_merge_keeps_purity(attached.push(rhs[i]), rhs, i + 1);
        }
    }
}

/// Merged into a list without purity, `rhs` gives its own first purity from
/// `i` on.
proof fn lemma_merge_takes_purity(attached: Seq<SpecAttribute>, rhs: Seq<SpecAttribute>, i: int)
    requires
        first_purity(attached) is None,
        0 <= i <= rhs.len(),
    ensures
        first_purity(merge_attached(attached, rhs, i)) == first_purity(rhs.skip(i)),
    decreases rhs.len() - i,
{
    if i < rhs.len() {
        let a = rhs[i];
        assert(rhs.skip(i)[0] == a);
        assert(rhs.skip(i).drop_first() =~= rhs.skip(i + 1));
        if a is Purity {
            if attached.contains(a) {
                lemma_first_purity_contains(attached, a->Purity_0);
            }
            lemma_first_purity_after(attached, a->Purity_0);
            lemma_merge_keeps_purity(attached.push(a), rhs, i + 1);
        } else if attached.contains(a) {
            lemma_merge_takes_purity(attached, rhs, i + 1);
        } else {
            lemma_first_purity_push_other(attached, a);
            lemma_merge_takes_purity(attached.push(a), rhs, i + 1);
        }
    } else {
        assert(rhs.skip(i) =~= Seq::<SpecAttribute>::empty());
        assert(merge_attached(attached, rhs, i) == attached);
    }
}

/// Merging attribute sets joins their flags; an attribute is held by the
/// merge exactly where the first set holds it or the second, when it has any
/// flag, carries it; and the purity is that of the first set where it has one,
/// else that of the second.
pub proof fn law_merge_union(a: SpecAttributes, b: SpecAttributes, x: SpecAttribute)
    ensures
        merged(a, b).state == a.state | b.state,
        merged(a, b).attached.contains(x) <==> a.attached.contains(x) || (b.state != 0
            && b.attached.contains(x)),
        a.wf() && b.wf() ==> merged(a, b).purity() == match a.purity() {
            Some(p) => Some(p),
            None => b.purity(),
        },
{
    let s = a.state;
    let t = b.state;
    assert(t == 0 ==> s | t == s) by (bit_vector);
    assert((s | t) & 0x40 != 0 <==> (s & 0x40 != 0 || t & 0x40 != 0)) by (bit_vector);
    if t != 0 {
        lemma_merge_contains(a.attached, b.attached, 0, x);
        if b.attached.contains(x) {
            let j = choose|j: int| 0 <= j < b.attached.len() && b.attached[j] == x;
        }
        if a.wf() && b.wf() {
            if a.purity() is Some {
                lemma_merge_keeps_purity(a.attached, b.attached, 0);
            } else {
                lemma_merge_takes_purity(a.attached, b.attached, 0);
                assert(b.attached.skip(0) =~= b.attached);
            }
        }
    }
}

/// A merge of attributes that `attached` holds already leaves it as it is.
proof fn lemma_merge_held(attached: Seq<SpecAttribute>, rhs: Seq<SpecAttribute>, i: int)
    requires
        forall|j: int| 0 <= j < rhs.len() ==> attached.contains(#[trigger] rhs[j]),
    ensures
        merge_attached(attached, rhs, i) == attached,
    decreases rhs.len() - i,
{
    if 0 <= i < rhs.len() {
        assert(attached.contains(rhs[i]));
        lemma_merge_held(attached, rhs, i + 1);
    }
}

/// Merging attributes with themselves changes nothing.
pub proof fn law_merge_self(a: SpecAttributes)
    ensures
        merged(a, a) == a,
{
    let s = a.state;
    assert(s | s == s) by (bit_vector);
    assert forall|j: int| 0 <= j < a.attached.len() implies a.attached.contains(#[trigger] a.attached[j]) by {}
    lemma_merge_held(a.attached, a.attached, 0);
}

} // verus!
