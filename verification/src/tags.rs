pub mod feature;
pub mod language;
pub mod script;
use vstd::prelude::*;

verus! {

/// Four bytes read as a big-endian `u32`.
pub open spec fn tag_value(b: [u8; 4]) -> u32 {
    (b[0] as int * 0x1000000 + b[1] as int * 0x10000 + b[2] as int * 0x100 + b[3] as int) as u32
}

/// The four big-endian bytes of `v`.
pub open spec fn be_bytes(v: u32) -> [u8; 4] {
    [(v / 0x1000000) as u8, (v / 0x10000 % 0x100) as u8, (v / 0x100 % 0x100) as u8, (v % 0x100) as u8]
}

/// Reading four bytes as a big-endian `u32` and writing it back gives the same bytes,
/// and writing a value out and reading it gives the same value.
pub proof fn lemma_tag_round_trip(b: [u8; 4], v: u32)
    ensures
        be_bytes(tag_value(b)) == b,
        tag_value(be_bytes(v)) == v,
{
    let (b0, b1, b2, b3) = (b[0], b[1], b[2], b[3]);
    let t = tag_value(b);
    assert(t == (b0 as int * 0x1000000 + b1 as int * 0x10000 + b2 as int * 0x100 + b3 as int) as u32);
    assert(t / 0x1000000 == b0 && t / 0x10000 % 0x100 == b1 && t / 0x100 % 0x100 == b2 && t % 0x100 == b3) by (bit_vector)
        requires
            t == (b0 as u32) * 0x1000000 + (b1 as u32) * 0x10000 + (b2 as u32) * 0x100 + (b3 as u32);
    assert(be_bytes(t) =~= b);
    let c = be_bytes(v);
    assert((v / 0x1000000) as u8 as u32 * 0x1000000 + (v / 0x10000 % 0x100) as u8 as u32 * 0x10000
        + (v / 0x100 % 0x100) as u8 as u32 * 0x100 + (v % 0x100) as u8 as u32 == v) by (bit_vector);
}

/// An OpenType tag: four bytes that name a table, a script, a language system or a feature.
#[derive(Hash, Debug, Clone, Copy)]
pub struct Tag {
    inner: [u8; 4],
}

impl Tag {
    /// The four bytes of the tag.
    pub closed spec fn spec_bytes(&self) -> [u8; 4] {
        self.inner
    }

    /// The tag read as a big-endian `u32`.
    pub open spec fn spec_value(&self) -> u32 {
        tag_value(self.spec_bytes())
    }

    pub fn from_bytes(bytes: [u8; 4]) -> (t: Self)
        ensures
            t.spec_bytes() == bytes,
    {
        Tag { inner: bytes }
    }

    /// The tag whose big-endian reading is `value`.
    pub fn from_u32(value: u32) -> (t: Self)
        ensures
            t.spec_value() == value,
            t.spec_bytes() == be_bytes(value),
    {
        let b0 = (value >> 24) as u8;
        let b1 = ((value >> 16) & 0xff) as u8;
        let b2 = ((value >> 8) & 0xff) as u8;
        let b3 = (value & 0xff) as u8;
        assert((b0 as u32) * 0x1000000 + (b1 as u32) * 0x10000 + (b2 as u32) * 0x100 + (b3 as u32) == value) by (bit_vector)
            requires
                b0 == (value >> 24) as u8,
                b1 == ((value >> 16) & 0xff) as u8,
                b2 == ((value >> 8) & 0xff) as u8,
                b3 == (value & 0xff) as u8,
        ;
        assert(b0 == (value / 0x1000000) as u8 && b1 == (value / 0x10000 % 0x100) as u8
            && b2 == (value / 0x100 % 0x100) as u8 && b3 == (value % 0x100) as u8) by (bit_vector)
            requires
                b0 == (value >> 24) as u8,
                b1 == ((value >> 16) & 0xff) as u8,
                b2 == ((value >> 8) & 0xff) as u8,
                b3 == (value & 0xff) as u8,
        ;
        let t = Tag { inner: [b0, b1, b2, b3] };
        assert(t.inner =~= be_bytes(value));
        t
    }

    /// The four bytes of the tag.
    pub fn as_bytes(&self) -> (b: [u8; 4])
        ensures
            b == self.spec_bytes(),
    {
        self.inner
    }

    /// The tag read as a big-endian `u32`.
    pub fn to_u32(&self) -> (v: u32)
        ensures
            v == self.spec_value(),
    {
        (self.inner[0] as u32) * 0x1000000 + (self.inner[1] as u32) * 0x10000 + (self.inner[2] as u32) * 0x100
            + (self.inner[3] as u32)
    }

    /// Whether two tags hold the same bytes.
    pub fn same(&self, other: &Tag) -> (b: bool)
        ensures
            b == (self.spec_value() == other.spec_value()),
    {
        self.to_u32() == other.to_u32()
    }
    /// Whether the tag is one of the script tags of the `script` module.
    pub fn is_valid_script(&self) -> (b: bool)
        ensures
            b == is_script_tag(self.spec_value()),
    {
        exec_is_script_tag(self.to_u32())
    }
    /// Whether the tag is one of the feature tags this library knows.
    pub fn is_valid_feature(&self) -> (b: bool)
        ensures
            b == is_feature_tag(self.spec_value()),
    {
        exec_is_feature_tag(self.to_u32())
    }
    /// Whether the tag is one of the language system tags of the `language` module.
    pub fn is_valid_language(&self) -> (b: bool)
        ensures
            b == is_language_tag(self.spec_value()),
    {
        exec_is_language_tag(self.to_u32())
    }
}
impl PartialEq for Tag {
    fn eq(&self, other: &Tag) -> (r: bool) {
        self.to_u32() == other.to_u32()
    }
}

impl Eq for Tag {
}

impl vstd::std_specs::cmp::PartialEqSpecImpl for Tag {
    open spec fn obeys_eq_spec() -> bool {
        true
    }

    open spec fn eq_spec(&self, other: &Tag) -> bool {
        self.spec_value() == other.spec_value()
    }
}

impl From<[u8; 4]> for Tag {
    fn from(inner: [u8; 4]) -> (t: Tag) {
        Tag { inner }
    }
}

impl vstd::std_specs::convert::FromSpecImpl<[u8; 4]> for Tag {
    open spec fn obeys_from_spec() -> bool {
        true
    }

    closed spec fn from_spec(inner: [u8; 4]) -> Tag {
        Tag { inner }
    }
}

impl core::borrow::Borrow<[u8; 4]> for Tag {
    fn borrow(&self) -> &[u8; 4]
        returns
            &self.spec_bytes(),
    {
        &self.inner
    }
}

impl AsRef<[u8; 4]> for Tag {
    fn as_ref(&self) -> &[u8; 4]
        returns
            &self.spec_bytes(),
    {
        &self.inner
    }
}

impl AsRef<[u8]> for Tag {
    fn as_ref(&self) -> &[u8]
        returns
            vstd::array::spec_array_as_slice(&self.spec_bytes()),
    {
        self.inner.as_slice()
    }
}

impl From<u32> for Tag {
    fn from(value: u32) -> (t: Tag) {
        Tag::from_u32(value)
    }
}

impl vstd::std_specs::convert::FromSpecImpl<u32> for Tag {
    open spec fn obeys_from_spec() -> bool {
        true
    }

    closed spec fn from_spec(value: u32) -> Tag {
        Tag { inner: be_bytes(value) }
    }
}

/// The script tags, read as big-endian `u32` values.
pub open spec fn is_script_tag(v: u32) -> bool {
    match v {
        0x61646c6d |
        0x61686f6d |
        0x686c7577 |
        0x61726162 |
        0x61726d6e |
        0x61767374 |
        0x62616c69 |
        0x62616d75 |
        0x62617373 |
        0x6261746b |
        0x62656e67 |
        0x626e6732 |
        0x62657266 |
        0x62686b73 |
        0x626f706f |
        0x62726168 |
        0x62726169 |
        0x62756769 |
        0x62756864 |
        0x62797a6d |
        0x63616e73 |
        0x63617269 |
        0x61676862 |
        0x63616b6d |
        0x6368616d |
        0x63686572 |
        0x63687273 |
        0x68616e69 |
        0x636f7074 |
        0x63707274 |
        0x63706d6e |
        0x6379726c |
        0x44464c54 |
        0x64737274 |
        0x64657661 |
        0x64657632 |
        0x6469616b |
        0x646f6772 |
        0x6475706c |
        0x65677970 |
        0x656c6261 |
        0x656c796d |
        0x65746869 |
        0x67617261 |
        0x67656f72 |
        0x676c6167 |
        0x676f7468 |
        0x6772616e |
        0x6772656b |
        0x67756a72 |
        0x676a7232 |
        0x676f6e67 |
        0x67757275 |
        0x67757232 |
        0x67756b68 |
        0x68616e67 |
        0x6a616d6f |
        0x726f6867 |
        0x68616e6f |
        0x68617472 |
        0x68656272 |
        0x6b616e61 |
        0x61726d69 |
        0x70686c69 |
        0x70727469 |
        0x6a617661 |
        0x6b746869 |
        0x6b6e6461 |
        0x6b6e6432 |
        0x6b617769 |
        0x6b616c69 |
        0x6b686172 |
        0x6b697473 |
        0x6b686d72 |
        0x6b686f6a |
        0x73696e64 |
        0x6b726169 |
        0x6c616f20 |
        0x6c61746e |
        0x6c657063 |
        0x6c696d62 |
        0x6c696e61 |
        0x6c696e62 |
        0x6c697375 |
        0x6c796369 |
        0x6c796469 |
        0x6d61686a |
        0x6d616b61 |
        0x6d6c796d |
        0x6d6c6d32 |
        0x6d616e64 |
        0x6d616e69 |
        0x6d617263 |
        0x676f6e6d |
        0x6d617468 |
        0x6d656466 |
        0x6d746569 |
        0x6d656e64 |
        0x6d657263 |
        0x6d65726f |
        0x706c7264 |
        0x6d6f6469 |
        0x6d6f6e67 |
        0x6d726f6f |
        0x6d756c74 |
        0x6d757363 |
        0x6d796d72 |
        0x6d796d32 |
        0x6e626174 |
        0x6e61676d |
        0x6e616e64 |
        0x6e657761 |
        0x74616c75 |
        0x6e6b6f20 |
        0x6e736875 |
        0x686d6e70 |
        0x6f727961 |
        0x6f727932 |
        0x6f67616d |
        0x6f6c636b |
        0x6f6e616f |
        0x6974616c |
        0x68756e67 |
        0x6e617262 |
        0x7065726d |
        0x7870656f |
        0x736f676f |
        0x73617262 |
        0x6f726b68 |
        0x6f756772 |
        0x6f736765 |
        0x6f736d61 |
        0x686d6e67 |
        0x70616c6d |
        0x70617563 |
        0x70686167 |
        0x70686e78 |
        0x70686c70 |
        0x726a6e67 |
        0x72756e72 |
        0x73616d72 |
        0x73617572 |
        0x73687264 |
        0x73686177 |
        0x73696464 |
        0x73696474 |
        0x73676e77 |
        0x73696e68 |
        0x736f6764 |
        0x736f7261 |
        0x736f796f |
        0x78737578 |
        0x73756e64 |
        0x73756e75 |
        0x73796c6f |
        0x73797263 |
        0x74676c67 |
        0x74616762 |
        0x74616c65 |
        0x6c616e61 |
        0x74617674 |
        0x7461796f |
        0x74616b72 |
        0x74616d6c |
        0x746d6c32 |
        0x746e7361 |
        0x74616e67 |
        0x74656c75 |
        0x74656c32 |
        0x74686161 |
        0x74686169 |
        0x74696274 |
        0x74666e67 |
        0x74697268 |
        0x746f6472 |
        0x746f6c73 |
        0x746f746f |
        0x74757467 |
        0x75676172 |
        0x76616920 |
        0x76697468 |
        0x7763686f |
        0x77617261 |
        0x79657a69 |
        0x79692020 |
        0x7a616e62 => true,
        _ => false,
    }
}

fn exec_is_script_tag(v: u32) -> (b: bool)
    ensures
        b == is_script_tag(v),
{
    match v {
        0x61646c6d |
        0x61686f6d |
        0x686c7577 |
        0x61726162 |
        0x61726d6e |
        0x61767374 |
        0x62616c69 |
        0x62616d75 |
        0x62617373 |
        0x6261746b |
        0x62656e67 |
        0x626e6732 |
        0x62657266 |
        0x62686b73 |
        0x626f706f |
        0x62726168 |
        0x62726169 |
        0x62756769 |
        0x62756864 |
        0x62797a6d |
        0x63616e73 |
        0x63617269 |
        0x61676862 |
        0x63616b6d |
        0x6368616d |
        0x63686572 |
        0x63687273 |
        0x68616e69 |
        0x636f7074 |
        0x63707274 |
        0x63706d6e |
        0x6379726c |
        0x44464c54 |
        0x64737274 |
        0x64657661 |
        0x64657632 |
        0x6469616b |
        0x646f6772 |
        0x6475706c |
        0x65677970 |
        0x656c6261 |
        0x656c796d |
        0x65746869 |
        0x67617261 |
        0x67656f72 |
        0x676c6167 |
        0x676f7468 |
        0x6772616e |
        0x6772656b |
        0x67756a72 |
        0x676a7232 |
        0x676f6e67 |
        0x67757275 |
        0x67757232 |
        0x67756b68 |
        0x68616e67 |
        0x6a616d6f |
        0x726f6867 |
        0x68616e6f |
        0x68617472 |
        0x68656272 |
        0x6b616e61 |
        0x61726d69 |
        0x70686c69 |
        0x70727469 |
        0x6a617661 |
        0x6b746869 |
        0x6b6e6461 |
        0x6b6e6432 |
        0x6b617769 |
        0x6b616c69 |
        0x6b686172 |
        0x6b697473 |
        0x6b686d72 |
        0x6b686f6a |
        0x73696e64 |
        0x6b726169 |
        0x6c616f20 |
        0x6c61746e |
        0x6c657063 |
        0x6c696d62 |
        0x6c696e61 |
        0x6c696e62 |
        0x6c697375 |
        0x6c796369 |
        0x6c796469 |
        0x6d61686a |
        0x6d616b61 |
        0x6d6c796d |
        0x6d6c6d32 |
        0x6d616e64 |
        0x6d616e69 |
        0x6d617263 |
        0x676f6e6d |
        0x6d617468 |
        0x6d656466 |
        0x6d746569 |
        0x6d656e64 |
        0x6d657263 |
        0x6d65726f |
        0x706c7264 |
        0x6d6f6469 |
        0x6d6f6e67 |
        0x6d726f6f |
        0x6d756c74 |
        0x6d757363 |
        0x6d796d72 |
        0x6d796d32 |
        0x6e626174 |
        0x6e61676d |
        0x6e616e64 |
        0x6e657761 |
        0x74616c75 |
        0x6e6b6f20 |
        0x6e736875 |
        0x686d6e70 |
        0x6f727961 |
        0x6f727932 |
        0x6f67616d |
        0x6f6c636b |
        0x6f6e616f |
        0x6974616c |
        0x68756e67 |
        0x6e617262 |
        0x7065726d |
        0x7870656f |
        0x736f676f |
        0x73617262 |
        0x6f726b68 |
        0x6f756772 |
        0x6f736765 |
        0x6f736d61 |
        0x686d6e67 |
        0x70616c6d |
        0x70617563 |
        0x70686167 |
        0x70686e78 |
        0x70686c70 |
        0x726a6e67 |
        0x72756e72 |
        0x73616d72 |
        0x73617572 |
        0x73687264 |
        0x73686177 |
        0x73696464 |
        0x73696474 |
        0x73676e77 |
        0x73696e68 |
        0x736f6764 |
        0x736f7261 |
        0x736f796f |
        0x78737578 |
        0x73756e64 |
        0x73756e75 |
        0x73796c6f |
        0x73797263 |
        0x74676c67 |
        0x74616762 |
        0x74616c65 |
        0x6c616e61 |
        0x74617674 |
        0x7461796f |
        0x74616b72 |
        0x74616d6c |
        0x746d6c32 |
        0x746e7361 |
        0x74616e67 |
        0x74656c75 |
        0x74656c32 |
        0x74686161 |
        0x74686169 |
        0x74696274 |
        0x74666e67 |
        0x74697268 |
        0x746f6472 |
        0x746f6c73 |
        0x746f746f |
        0x74757467 |
        0x75676172 |
        0x76616920 |
        0x76697468 |
        0x7763686f |
        0x77617261 |
        0x79657a69 |
        0x79692020 |
        0x7a616e62 => true,
        _ => false,
    }
}

/// The feature tags that `is_valid_feature` accepts, read as big-endian `u32` values.
pub open spec fn is_feature_tag(v: u32) -> bool {
    match v {
        0x6c696761 |
        0x64666c74 |
        0x636c6967 |
        0x646c6967 |
        0x686e756d |
        0x766e756d |
        0x6f6e756d |
        0x746e756d |
        0x6e756d72 |
        0x646e6f6d |
        0x73777368 |
        0x73616c74 |
        0x73733031 |
        0x73733032 |
        0x73733033 |
        0x73733034 |
        0x73733035 |
        0x73733036 |
        0x73733037 |
        0x73733038 |
        0x73733039 |
        0x73733130 |
        0x63617365 |
        0x63327363 |
        0x736d6370 |
        0x63327063 |
        0x70636170 |
        0x74626c6b |
        0x72616c74 |
        0x72636c74 |
        0x61627276 |
        0x696e6974 |
        0x66696e61 |
        0x6d656469 |
        0x70726573 |
        0x72636f6d |
        0x72706f73 |
        0x73776170 |
        0x736d6172 |
        0x6c6f636c |
        0x68697374 |
        0x61726162 |
        0x47535542 => true,
        _ => false,
    }
}

fn exec_is_feature_tag(v: u32) -> (b: bool)
    ensures
        b == is_feature_tag(v),
{
    match v {
        0x6c696761 |
        0x64666c74 |
        0x636c6967 |
        0x646c6967 |
        0x686e756d |
        0x766e756d |
        0x6f6e756d |
        0x746e756d |
        0x6e756d72 |
        0x646e6f6d |
        0x73777368 |
        0x73616c74 |
        0x73733031 |
        0x73733032 |
        0x73733033 |
        0x73733034 |
        0x73733035 |
        0x73733036 |
        0x73733037 |
        0x73733038 |
        0x73733039 |
        0x73733130 |
        0x63617365 |
        0x63327363 |
        0x736d6370 |
        0x63327063 |
        0x70636170 |
        0x74626c6b |
        0x72616c74 |
        0x72636c74 |
        0x61627276 |
        0x696e6974 |
        0x66696e61 |
        0x6d656469 |
        0x70726573 |
        0x72636f6d |
        0x72706f73 |
        0x73776170 |
        0x736d6172 |
        0x6c6f636c |
        0x68697374 |
        0x61726162 |
        0x47535542 => true,
        _ => false,
    }
}

/// The language system tags, read as big-endian `u32` values.
pub open spec fn is_language_tag(v: u32) -> bool {
    match v {
        0x64666c74 |
        0x454e4720 |
        0x656e2020 |
        0x66722020 |
        0x64652020 |
        0x65732020 |
        0x69742020 |
        0x70742020 |
        0x72752020 |
        0x7a68636e |
        0x7a687477 |
        0x6a612020 |
        0x6b6f2020 |
        0x61722020 |
        0x68652020 |
        0x68692020 |
        0x626e2020 |
        0x74612020 |
        0x74652020 |
        0x70612020 |
        0x76692020 |
        0x74682020 |
        0x6c6f2020 |
        0x6d792020 |
        0x68752020 |
        0x706c2020 |
        0x6e6c2020 |
        0x73762020 |
        0x6e6f2020 |
        0x64612020 |
        0x66692020 |
        0x63732020 |
        0x736b2020 |
        0x726f2020 |
        0x656c2020 |
        0x74722020 |
        0x756b2020 => true,
        _ => false,
    }
}

fn exec_is_language_tag(v: u32) -> (b: bool)
    ensures
        b == is_language_tag(v),
{
    match v {
        0x64666c74 |
        0x454e4720 |
        0x656e2020 |
        0x66722020 |
        0x64652020 |
        0x65732020 |
        0x69742020 |
        0x70742020 |
        0x72752020 |
        0x7a68636e |
        0x7a687477 |
        0x6a612020 |
        0x6b6f2020 |
        0x61722020 |
        0x68652020 |
        0x68692020 |
        0x626e2020 |
        0x74612020 |
        0x74652020 |
        0x70612020 |
        0x76692020 |
        0x74682020 |
        0x6c6f2020 |
        0x6d792020 |
        0x68752020 |
        0x706c2020 |
        0x6e6c2020 |
        0x73762020 |
        0x6e6f2020 |
        0x64612020 |
        0x66692020 |
        0x63732020 |
        0x736b2020 |
        0x726f2020 |
        0x656c2020 |
        0x74722020 |
        0x756b2020 => true,
        _ => false,
    }
}

} // verus!
