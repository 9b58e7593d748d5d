//! The OSC 1337 tile protocol: `ESC ] 1337 ; Tile = param:value,param:value,... BEL`.
//!
//! [`parse`] reads the parameter bytes of such a sequence into a [`TileCommand`].
//! Numeric parameters that the renderer takes as floating-point numbers are kept as
//! their decimal text ([`FloatText`]), checked against the grammar that the
//! standard library's float parser accepts, so that turning them into numbers
//! cannot fail.

use vstd::prelude::*;
use vstd::utf8::valid_utf8;

use crate::text::{
    all_digits, ascii, bytes_eq, check_float_literal, find_byte, first_index_of, has_prefix,
    is_float_literal, is_mantissa, is_sign, parse_unsigned, spec_parse_unsigned, split_bytes,
    split_on, starts_with, without_sign,
};

verus! {

/// The shader that draws a tile.
#[derive(Debug, Clone, Copy, PartialEq, Eq, Structural)]
pub enum TileShader {
    Plasma,
    Clock,
    Noise,
    HeatEquation,
    Custom(u32),
}

/// Whether a tile survives the start of the next frame.
#[derive(Debug, Clone, Copy, PartialEq, Eq, Structural, Default)]
pub enum TileKind {
    #[default]
    Persistent,
    Transient,
}

/// The decimal text of a floating-point parameter, as it stood in the sequence.
///
/// `==` on this type, and so on [`TileSpec`] and [`TileCommand`], compares the
/// texts, not the numbers they denote: `1` and `1.0` differ here though they are
/// the same `f32`, and `NaN` equals itself. Deciding whether two texts denote the
/// same `f32` takes the float parser's rounding, which this library leaves to the
/// renderer; compare the converted numbers where numeric equality is meant.
#[derive(Debug, Clone, PartialEq)]
pub struct FloatText {
    pub text: Vec<u8>,
}

impl View for FloatText {
    type V = Seq<u8>;

    open spec fn view(&self) -> Seq<u8> {
        self.text@
    }
}

/// A tile as the protocol describes it.
#[derive(Debug, Clone, PartialEq)]
pub struct TileSpec {
    pub id: u64,
    pub shader: TileShader,
    pub kind: TileKind,
    pub x: FloatText,
    pub y: FloatText,
    pub width: FloatText,
    pub height: FloatText,
    pub time_offset: FloatText,
    /// r, g, b, a
    pub custom: [FloatText; 4],
}

/// The mathematical value of a [`TileSpec`]: its texts as byte sequences.
pub struct TileSpecModel {
    pub id: u64,
    pub shader: TileShader,
    pub kind: TileKind,
    pub x: Seq<u8>,
    pub y: Seq<u8>,
    pub width: Seq<u8>,
    pub height: Seq<u8>,
    pub time_offset: Seq<u8>,
    /// r, g, b, a
    pub custom: Seq<Seq<u8>>,
}

impl View for TileSpec {
    type V = TileSpecModel;

    open spec fn view(&self) -> TileSpecModel {
        TileSpecModel {
            id: self.id,
            shader: self.shader,
            kind: self.kind,
            x: self.x@,
            y: self.y@,
            width: self.width@,
            height: self.height@,
            time_offset: self.time_offset@,
            custom: seq![self.custom[0]@, self.custom[1]@, self.custom[2]@, self.custom[3]@],
        }
    }
}

/// A command carried by a tile sequence.
#[derive(Debug, Clone, PartialEq)]
pub enum TileCommand {
    Insert(TileSpec),
    Remove(u64),
    Clear,
}

/// The mathematical value of a [`TileCommand`].
pub enum TileCommandModel {
    Insert(TileSpecModel),
    Remove(u64),
    Clear,
}

impl View for TileCommand {
    type V = TileCommandModel;

    open spec fn view(&self) -> TileCommandModel {
        match self {
            TileCommand::Insert(spec) => TileCommandModel::Insert(spec@),
            TileCommand::Remove(id) => TileCommandModel::Remove(*id),
            TileCommand::Clear => TileCommandModel::Clear,
        }
    }
}

/// The spec a tile has before any parameter is applied: id 0, plasma, persistent,
/// at the origin, 256 by 256, no time offset, white.
pub open spec fn default_spec() -> TileSpecModel {
    TileSpecModel {
        id: 0,
        shader: TileShader::Plasma,
        kind: TileKind::Persistent,
        x: ascii(seq!['0', '.', '0']),
        y: ascii(seq!['0', '.', '0']),
        width: ascii(seq!['2', '5', '6', '.', '0']),
        height: ascii(seq!['2', '5', '6', '.', '0']),
        time_offset: ascii(seq!['0', '.', '0']),
        custom: seq![
            ascii(seq!['1', '.', '0']),
            ascii(seq!['1', '.', '0']),
            ascii(seq!['1', '.', '0']),
            ascii(seq!['1', '.', '0']),
        ],
    }
}

fn zero_text() -> (r: FloatText)
    ensures
        r@ == ascii(seq!['0', '.', '0']),
{
    let r = FloatText { text: vec![48u8, 46u8, 48u8] };
    assert(r@ =~= ascii(seq!['0', '.', '0']));
    r
}

fn one_text() -> (r: FloatText)
    ensures
        r@ == ascii(seq!['1', '.', '0']),
{
    let r = FloatText { text: vec![49u8, 46u8, 48u8] };
    assert(r@ =~= ascii(seq!['1', '.', '0']));
    r
}

fn side_text() -> (r: FloatText)
    ensures
        r@ == ascii(seq!['2', '5', '6', '.', '0']),
{
    let r = FloatText { text: vec![50u8, 53u8, 54u8, 46u8, 48u8] };
    assert(r@ =~= ascii(seq!['2', '5', '6', '.', '0']));
    r
}

impl Default for TileSpec {
    fn default() -> (r: TileSpec)
        ensures
            r@ == default_spec(),
    {
        let r = TileSpec {
            id: 0,
            shader: TileShader::Plasma,
            kind: TileKind::Persistent,
            x: zero_text(),
            y: zero_text(),
            width: side_text(),
            height: side_text(),
            time_offset: zero_text(),
            custom: [one_text(), one_text(), one_text(), one_text()],
        };
        assert(r@.custom =~= default_spec().custom);
        r
    }
}


/// What a `shader` value names: one of the built-in shaders by name, or a custom
/// shader by its `u32` number.
pub open spec fn spec_parse_shader(val: Seq<u8>) -> Option<TileShader> {
    if val == ascii(seq!['p', 'l', 'a', 's', 'm', 'a']) {
        Some(TileShader::Plasma)
    } else if val == ascii(seq!['c', 'l', 'o', 'c', 'k']) {
        Some(TileShader::Clock)
    } else if val == ascii(seq!['n', 'o', 'i', 's', 'e']) {
        Some(TileShader::Noise)
    } else if val == ascii(seq!['h', 'e', 'a', 't']) || val == ascii(seq!['h', 'e', 'a', 't', '_', 'e', 'q', 'u', 'a', 't', 'i', 'o', 'n']) || val == ascii(seq!['h', 'e', 'a', 't', 'e', 'q']) {
        Some(TileShader::HeatEquation)
    } else {
        match spec_parse_unsigned(val, u32::MAX as nat) {
            Some(n) => Some(TileShader::Custom(n as u32)),
            None => None,
        }
    }
}

/// Reads the value of a `shader` parameter.
pub fn parse_shader(val: &[u8]) -> (r: Option<TileShader>)
    ensures
        r == spec_parse_shader(val@),
{
    let plasma: [u8; 6] = [112u8, 108u8, 97u8, 115u8, 109u8, 97u8];
    assert(plasma@ =~= ascii(seq!['p', 'l', 'a', 's', 'm', 'a']));
    let clock: [u8; 5] = [99u8, 108u8, 111u8, 99u8, 107u8];
    assert(clock@ =~= ascii(seq!['c', 'l', 'o', 'c', 'k']));
    let noise: [u8; 5] = [110u8, 111u8, 105u8, 115u8, 101u8];
    assert(noise@ =~= ascii(seq!['n', 'o', 'i', 's', 'e']));
    let heat: [u8; 4] = [104u8, 101u8, 97u8, 116u8];
    assert(heat@ =~= ascii(seq!['h', 'e', 'a', 't']));
    let heat_equation: [u8; 13] = [104u8, 101u8, 97u8, 116u8, 95u8, 101u8, 113u8, 117u8, 97u8, 116u8, 105u8, 111u8, 110u8];
    assert(heat_equation@ =~= ascii(seq!['h', 'e', 'a', 't', '_', 'e', 'q', 'u', 'a', 't', 'i', 'o', 'n']));
    let heateq: [u8; 6] = [104u8, 101u8, 97u8, 116u8, 101u8, 113u8];
    assert(heateq@ =~= ascii(seq!['h', 'e', 'a', 't', 'e', 'q']));
    if bytes_eq(val, &plasma) {
        Some(TileShader::Plasma)
    } else if bytes_eq(val, &clock) {
        Some(TileShader::Clock)
    } else if bytes_eq(val, &noise) {
        Some(TileShader::Noise)
    } else if bytes_eq(val, &heat) || bytes_eq(val, &heat_equation) || bytes_eq(val, &heateq) {
        Some(TileShader::HeatEquation)
    } else {
        match parse_unsigned(val, 4294967295u64) {
            Some(n) => Some(TileShader::Custom(n as u32)),
            None => None,
        }
    }
}

/// What a `kind` value names.
pub open spec fn spec_parse_kind(val: Seq<u8>) -> Option<TileKind> {
    if val == ascii(seq!['p', 'e', 'r', 's', 'i', 's', 't', 'e', 'n', 't']) {
        Some(TileKind::Persistent)
    } else if val == ascii(seq!['t', 'r', 'a', 'n', 's', 'i', 'e', 'n', 't']) {
        Some(TileKind::Transient)
    } else {
        None
    }
}

/// Reads the value of a `kind` parameter.
pub fn parse_kind(val: &[u8]) -> (r: Option<TileKind>)
    ensures
        r == spec_parse_kind(val@),
{
    let persistent: [u8; 10] = [112u8, 101u8, 114u8, 115u8, 105u8, 115u8, 116u8, 101u8, 110u8, 116u8];
    assert(persistent@ =~= ascii(seq!['p', 'e', 'r', 's', 'i', 's', 't', 'e', 'n', 't']));
    let transient: [u8; 9] = [116u8, 114u8, 97u8, 110u8, 115u8, 105u8, 101u8, 110u8, 116u8];
    assert(transient@ =~= ascii(seq!['t', 'r', 'a', 'n', 's', 'i', 'e', 'n', 't']));
    if bytes_eq(val, &persistent) {
        Some(TileKind::Persistent)
    } else if bytes_eq(val, &transient) {
        Some(TileKind::Transient)
    } else {
        None
    }
}


/// One `key:value` parameter applied to a spec. `None` when the value is not one
/// that the key takes; a key that the protocol does not know leaves the spec as it is.
/// A later parameter overrides an earlier one for the same field.
pub open spec fn apply_param(m: TileSpecModel, key: Seq<u8>, val: Seq<u8>) -> Option<TileSpecModel> {
    if key == ascii(seq!['s', 'h', 'a', 'd', 'e', 'r']) {
        match spec_parse_shader(val) {
            Some(shader) => Some(TileSpecModel { shader, ..m }),
            None => None,
        }
    } else if key == ascii(seq!['i', 'd']) {
        match spec_parse_unsigned(val, u64::MAX as nat) {
            Some(id) => Some(TileSpecModel { id: id as u64, ..m }),
            None => None,
        }
    } else if key == ascii(seq!['k', 'i', 'n', 'd']) {
        match spec_parse_kind(val) {
            Some(kind) => Some(TileSpecModel { kind, ..m }),
            None => None,
        }
    } else if !is_float_key(key) {
        Some(m)
    } else if !is_float_literal(val) {
        None
    } else if key == ascii(seq!['x']) {
        Some(TileSpecModel { x: val, ..m })
    } else if key == ascii(seq!['y']) {
        Some(TileSpecModel { y: val, ..m })
    } else if key == ascii(seq!['w']) {
        Some(TileSpecModel { width: val, ..m })
    } else if key == ascii(seq!['h']) {
        Some(TileSpecModel { height: val, ..m })
    } else if key == ascii(seq!['t', 'i', 'm', 'e', '_', 'o', 'f', 'f', 's', 'e', 't']) {
        Some(TileSpecModel { time_offset: val, ..m })
    } else if key == ascii(seq!['r']) {
        Some(TileSpecModel { custom: m.custom.update(0, val), ..m })
    } else if key == ascii(seq!['g']) {
        Some(TileSpecModel { custom: m.custom.update(1, val), ..m })
    } else if key == ascii(seq!['b']) {
        Some(TileSpecModel { custom: m.custom.update(2, val), ..m })
    } else {
        Some(TileSpecModel { custom: m.custom.update(3, val), ..m })
    }
}

/// The keys whose values are floating-point numbers: `x`, `y`, `w`, `h`,
/// `time_offset`, and the colour channels `r`, `g`, `b`, `a`.
pub open spec fn is_float_key(key: Seq<u8>) -> bool {
    ||| key == ascii(seq!['x'])
    ||| key == ascii(seq!['y'])
    ||| key == ascii(seq!['w'])
    ||| key == ascii(seq!['h'])
    ||| key == ascii(seq!['t', 'i', 'm', 'e', '_', 'o', 'f', 'f', 's', 'e', 't'])
    ||| key == ascii(seq!['r'])
    ||| key == ascii(seq!['g'])
    ||| key == ascii(seq!['b'])
    ||| key == ascii(seq!['a'])
}

/// Applies one `key:value` parameter to `spec`.
fn apply_param_exec(spec: TileSpec, key: &[u8], val: &[u8]) -> (r: Option<TileSpec>)
    ensures
        match r {
            Some(s) => apply_param(spec@, key@, val@) == Some(s@),
            None => apply_param(spec@, key@, val@) is None,
        },
{
    let mut spec = spec;
    let key_shader: [u8; 6] = [115u8, 104u8, 97u8, 100u8, 101u8, 114u8];
    assert(key_shader@ =~= ascii(seq!['s', 'h', 'a', 'd', 'e', 'r']));
    let key_id: [u8; 2] = [105u8, 100u8];
    assert(key_id@ =~= ascii(seq!['i', 'd']));
    let key_kind: [u8; 4] = [107u8, 105u8, 110u8, 100u8];
    assert(key_kind@ =~= ascii(seq!['k', 'i', 'n', 'd']));
    let key_x: [u8; 1] = [120u8];
    assert(key_x@ =~= ascii(seq!['x']));
    let key_y: [u8; 1] = [121u8];
    assert(key_y@ =~= ascii(seq!['y']));
    let key_w: [u8; 1] = [119u8];
    assert(key_w@ =~= ascii(seq!['w']));
    let key_h: [u8; 1] = [104u8];
    assert(key_h@ =~= ascii(seq!['h']));
    let key_time_offset: [u8; 11] = [116u8, 105u8, 109u8, 101u8, 95u8, 111u8, 102u8, 102u8, 115u8, 101u8, 116u8];
    assert(key_time_offset@ =~= ascii(seq!['t', 'i', 'm', 'e', '_', 'o', 'f', 'f', 's', 'e', 't']));
    let key_r: [u8; 1] = [114u8];
    assert(key_r@ =~= ascii(seq!['r']));
    let key_g: [u8; 1] = [103u8];
    assert(key_g@ =~= ascii(seq!['g']));
    let key_b: [u8; 1] = [98u8];
    assert(key_b@ =~= ascii(seq!['b']));
    let key_a: [u8; 1] = [97u8];
    assert(key_a@ =~= ascii(seq!['a']));
    if bytes_eq(key, &key_shader) {
        match parse_shader(val) {
            Some(shader) => {
                spec.shader = shader;
                Some(spec)
            },
            None => None,
        }
    } else if bytes_eq(key, &key_id) {
        match parse_unsigned(val, 18446744073709551615u64) {
            Some(id) => {
                spec.id = id;
                Some(spec)
            },
            None => None,
        }
    } else if bytes_eq(key, &key_kind) {
        match parse_kind(val) {
            Some(kind) => {
                spec.kind = kind;
                Some(spec)
            },
            None => None,
        }
    } else {
        let is_x = bytes_eq(key, &key_x);
        let is_y = bytes_eq(key, &key_y);
        let is_w = bytes_eq(key, &key_w);
        let is_h = bytes_eq(key, &key_h);
        let is_t = bytes_eq(key, &key_time_offset);
        let is_r = bytes_eq(key, &key_r);
        let is_g = bytes_eq(key, &key_g);
        let is_b = bytes_eq(key, &key_b);
        let is_a = bytes_eq(key, &key_a);
        if !(is_x || is_y || is_w || is_h || is_t || is_r || is_g || is_b || is_a) {
            return Some(spec);
        }
        if !check_float_literal(val) {
            return None;
        }
        let text = FloatText { text: vstd::slice::slice_to_vec(val) };
        assert(text@ == val@);
        let ghost before = spec@;
        if is_x {
            spec.x = text;
        } else if is_y {
            spec.y = text;
        } else if is_w {
            spec.width = text;
        } else if is_h {
            spec.height = text;
        } else if is_t {
            spec.time_offset = text;
        } else if is_r {
            spec.custom[0] = text;
            assert(spec@.custom =~= before.custom.update(0, val@));
        } else if is_g {
            spec.custom[1] = text;
            assert(spec@.custom =~= before.custom.update(1, val@));
        } else if is_b {
            spec.custom[2] = text;
            assert(spec@.custom =~= before.custom.update(2, val@));
        } else {
            spec.custom[3] = text;
            assert(spec@.custom =~= before.custom.update(3, val@));
        }
        Some(spec)
    }
}


/// One `key:value` piece of the parameter list: the key runs up to the first `:`,
/// the value is everything after it. A piece without `:` is refused.
pub open spec fn apply_pair(m: TileSpecModel, pair: Seq<u8>) -> Option<TileSpecModel> {
    match first_index_of(pair, 58u8) {
        Some(k) => apply_param(m, pair.take(k), pair.skip(k + 1)),
        None => None,
    }
}

/// The pieces applied from left to right; the first refused piece refuses the list.
pub open spec fn apply_pairs(m: TileSpecModel, pairs: Seq<Seq<u8>>) -> Option<TileSpecModel>
    decreases pairs.len(),
{
    if pairs.len() == 0 {
        Some(m)
    } else {
        match apply_pair(m, pairs[0]) {
            Some(next) => apply_pairs(next, pairs.drop_first()),
            None => None,
        }
    }
}

/// What a tile sequence's parameter bytes say. They must be UTF-8 and begin with
/// `Tile=`. What follows is `clear`, or `remove:` and a `u64` id, or a
/// comma-separated list of `key:value` parameters applied to [`default_spec`].
pub open spec fn spec_parse(params: Seq<u8>) -> Option<TileCommandModel> {
    if !valid_utf8(params) || !has_prefix(params, ascii(seq!['T', 'i', 'l', 'e', '='])) {
        None
    } else {
        let content = params.skip(5);
        if content == ascii(seq!['c', 'l', 'e', 'a', 'r']) {
            Some(TileCommandModel::Clear)
        } else if has_prefix(content, ascii(seq!['r', 'e', 'm', 'o', 'v', 'e', ':'])) {
            match spec_parse_unsigned(content.skip(7), u64::MAX as nat) {
                Some(id) => Some(TileCommandModel::Remove(id as u64)),
                None => None,
            }
        } else {
            match apply_pairs(default_spec(), split_on(content, 44u8)) {
                Some(spec) => Some(TileCommandModel::Insert(spec)),
                None => None,
            }
        }
    }
}

/// Applies one `key:value` piece to `spec`.
fn apply_pair_exec(spec: TileSpec, pair: &[u8]) -> (r: Option<TileSpec>)
    ensures
        match r {
            Some(s) => apply_pair(spec@, pair@) == Some(s@),
            None => apply_pair(spec@, pair@) is None,
        },
{
    match find_byte(pair, 58u8) {
        Some(k) => {
            let key = vstd::slice::slice_subrange(pair, 0, k);
            let val = vstd::slice::slice_subrange(pair, k + 1, pair.len());
            assert(key@ =~= pair@.take(k as int));
            assert(val@ =~= pair@.skip(k + 1));
            apply_param_exec(spec, key, val)
        },
        None => None,
    }
}

/// Whether `bytes` are well-formed UTF-8, as `std::str::from_utf8` decides: it
/// succeeds exactly on well-formed UTF-8, which vstd's `valid_utf8` defines.
#[verifier::external_body]
fn is_utf8(bytes: &[u8]) -> (r: bool)
    ensures
        r == valid_utf8(bytes@),
{
    std::str::from_utf8(bytes).is_ok()
}

/// Reads the parameter bytes of a tile sequence.
pub fn parse(params: &[u8]) -> (r: Option<TileCommand>)
    ensures
        match r {
            Some(cmd) => spec_parse(params@) == Some(cmd@),
            None => spec_parse(params@) is None,
        },
{
    if !is_utf8(params) {
        return None;
    }
    let tile: [u8; 5] = [84u8, 105u8, 108u8, 101u8, 61u8];
    assert(tile@ =~= ascii(seq!['T', 'i', 'l', 'e', '=']));
    if !starts_with(params, &tile) {
        return None;
    }
    let content = vstd::slice::slice_subrange(params, 5, params.len());
    assert(content@ =~= params@.skip(5));
    let clear: [u8; 5] = [99u8, 108u8, 101u8, 97u8, 114u8];
    assert(clear@ =~= ascii(seq!['c', 'l', 'e', 'a', 'r']));
    if bytes_eq(content, &clear) {
        return Some(TileCommand::Clear);
    }
    let remove: [u8; 7] = [114u8, 101u8, 109u8, 111u8, 118u8, 101u8, 58u8];
    assert(remove@ =~= ascii(seq!['r', 'e', 'm', 'o', 'v', 'e', ':']));
    if starts_with(content, &remove) {
        let id_text = vstd::slice::slice_subrange(content, 7, content.len());
        assert(id_text@ =~= content@.skip(7));
        return match parse_unsigned(id_text, 18446744073709551615u64) {
            Some(id) => Some(TileCommand::Remove(id)),
            None => None,
        };
    }
    let pairs = split_bytes(content, 44u8);
    let ghost pieces = pairs.deep_view();
    let mut spec = TileSpec::default();
    assert(pieces.skip(0) =~= pieces);
    assert(spec_parse(params@) == match apply_pairs(default_spec(), pieces) {
        Some(s) => Some(TileCommandModel::Insert(s)),
        None => None,
    });
    let mut i: usize = 0;
    while i < pairs.len()
        invariant
            0 <= i <= pairs.len(),
            pieces == pairs.deep_view(),
            spec_parse(params@) == match apply_pairs(default_spec(), pieces) {
                Some(s) => Some(TileCommandModel::Insert(s)),
                None => None,
            },
            apply_pairs(default_spec(), pieces) == apply_pairs(spec@, pieces.skip(i as int)),
        decreases pairs.len() - i,
    {
        let pair: &Vec<u8> = &pairs[i];
        assert(pair@ =~= pieces[i as int]);
        assert(pieces.skip(i as int).drop_first() =~= pieces.skip(i + 1));
        assert(pieces.skip(i as int)[0] == pieces[i as int]);
        match apply_pair_exec(spec, pair.as_slice()) {
            Some(next) => {
                spec = next;
            },
            None => {
                return None;
            },
        }
        i = i + 1;
    }
    assert(pieces.skip(i as int) =~= Seq::<Seq<u8>>::empty());
    Some(TileCommand::Insert(spec))
}


/// Every floating-point field of `m` holds a literal that the float parser accepts.
pub open spec fn floats_are_literals(m: TileSpecModel) -> bool {
    &&& is_float_literal(m.x)
    &&& is_float_literal(m.y)
    &&& is_float_literal(m.width)
    &&& is_float_literal(m.height)
    &&& is_float_literal(m.time_offset)
    &&& m.custom.len() == 4
    &&& forall|i: int| 0 <= i < 4 ==> is_float_literal(#[trigger] m.custom[i])
}

/// `digits '.' digits` is a float literal.
proof fn lemma_dotted_literal(s: Seq<u8>, k: int)
    requires
        s.len() > 1,
        0 <= k < s.len(),
        s[k] == 46u8,
        all_digits(s.take(k)),
        all_digits(s.skip(k + 1)),
        !is_sign(s[0]),
    ensures
        is_float_literal(s),
{
    assert(without_sign(s) == s);
    assert(is_mantissa(s));
}

proof fn lemma_default_floats()
    ensures
        floats_are_literals(default_spec()),
{
    let zero = ascii(seq!['0', '.', '0']);
    let one = ascii(seq!['1', '.', '0']);
    let side = ascii(seq!['2', '5', '6', '.', '0']);
    assert(zero =~= seq![48u8, 46u8, 48u8]);
    assert(one =~= seq![49u8, 46u8, 48u8]);
    assert(side =~= seq![50u8, 53u8, 54u8, 46u8, 48u8]);
    assert(all_digits(zero.take(1)));
    assert(all_digits(zero.skip(2)));
    assert(all_digits(one.take(1)));
    assert(all_digits(one.skip(2)));
    assert(all_digits(side.take(3)));
    assert(all_digits(side.skip(4)));
    lemma_dotted_literal(zero, 1);
    lemma_dotted_literal(one, 1);
    lemma_dotted_literal(side, 3);
    let d = default_spec();
    assert(forall|i: int| 0 <= i < 4 ==> #[trigger] d.custom[i] == one);
}

proof fn lemma_apply_pairs_floats(m: TileSpecModel, pairs: Seq<Seq<u8>>)
    requires
        floats_are_literals(m),
    ensures
        apply_pairs(m, pairs) matches Some(r) ==> floats_are_literals(r),
    decreases pairs.len(),
{
    if pairs.len() > 0 {
        if let Some(next) = apply_pair(m, pairs[0]) {
            if let Some(k) = first_index_of(pairs[0], 58u8) {
                let key = pairs[0].take(k);
                let val = pairs[0].skip(k + 1);
                assert(apply_param(m, key, val) == Some(next));
                if is_float_key(key) && key != ascii(seq!['s', 'h', 'a', 'd', 'e', 'r'])
                    && key != ascii(seq!['i', 'd']) && key != ascii(seq!['k', 'i', 'n', 'd']) {
                    assert(is_float_literal(val));
                    assert forall|i: int| 0 <= i < 4 implies is_float_literal(#[trigger] next.custom[i]) by {
                        if next.custom[i] != m.custom[i] {
                            assert(next.custom[i] == val);
                        }
                    }
                }
            }
            lemma_apply_pairs_floats(next, pairs.drop_first());
        }
    }
}

/// A spec that [`parse`] gives has a float literal in every floating-point field,
/// so turning those fields into numbers cannot fail.
pub proof fn law_parsed_floats_are_literals(params: Seq<u8>)
    ensures
        spec_parse(params) matches Some(TileCommandModel::Insert(m)) ==> floats_are_literals(m),
{
    lemma_default_floats();
    if valid_utf8(params) && has_prefix(params, ascii(seq!['T', 'i', 'l', 'e', '='])) {
        lemma_apply_pairs_floats(default_spec(), split_on(params.skip(5), 44u8));
    }
}

/// Only UTF-8 parameters that begin with `Tile=` carry a command.
pub proof fn law_parse_needs_tile_prefix(params: Seq<u8>)
    ensures
        spec_parse(params) is Some ==> valid_utf8(params) && has_prefix(
            params,
            ascii(seq!['T', 'i', 'l', 'e', '=']),
        ),
{
}


/// The keys the protocol knows.
pub open spec fn is_known_key(key: Seq<u8>) -> bool {
    ||| key == ascii(seq!['s', 'h', 'a', 'd', 'e', 'r'])
    ||| key == ascii(seq!['i', 'd'])
    ||| key == ascii(seq!['k', 'i', 'n', 'd'])
    ||| is_float_key(key)
}

/// Applying the pieces one after another: the last piece applies to what the
/// others gave.
proof fn lemma_apply_pairs_push(m: TileSpecModel, pairs: Seq<Seq<u8>>, pair: Seq<u8>)
    ensures
        apply_pairs(m, pairs.push(pair)) == match apply_pairs(m, pairs) {
            Some(r) => apply_pair(r, pair),
            None => None,
        },
    decreases pairs.len(),
{
    if pairs.len() == 0 {
        assert(pairs.push(pair).drop_first() =~= Seq::<Seq<u8>>::empty());
        assert(pairs.push(pair)[0] == pair);
        if let Some(n) = apply_pair(m, pair) {
            assert(apply_pairs(n, pairs.push(pair).drop_first()) == Some(n));
        }
    } else {
        assert(pairs.push(pair).drop_first() =~= pairs.drop_first().push(pair));
        assert(pairs.push(pair)[0] == pairs[0]);
        if let Some(next) = apply_pair(m, pairs[0]) {
            lemma_apply_pairs_push(next, pairs.drop_first(), pair);
        }
    }
}

/// A single ASCII byte is UTF-8.
proof fn lemma_ascii_byte_utf8(b: u8)
    requires
        b < 128,
    ensures
        valid_utf8(seq![b]),
{
    reveal_with_fuel(valid_utf8, 2);
    assert(seq![b].subrange(1, 1) =~= Seq::<u8>::empty());
}

/// A content that gains `,` and more is neither `clear` nor a `remove:` request.
proof fn lemma_extended_content(content: Seq<u8>, longer: Seq<u8>)
    requires
        longer.len() > content.len(),
        longer.take(content.len() as int) == content,
        longer[content.len() as int] == 44u8,
        !has_prefix(content, ascii(seq!['r', 'e', 'm', 'o', 'v', 'e', ':'])),
    ensures
        longer != ascii(seq!['c', 'l', 'e', 'a', 'r']),
        !has_prefix(longer, ascii(seq!['r', 'e', 'm', 'o', 'v', 'e', ':'])),
{
    let clear = ascii(seq!['c', 'l', 'e', 'a', 'r']);
    let remove = ascii(seq!['r', 'e', 'm', 'o', 'v', 'e', ':']);
    assert(clear =~= seq![99u8, 108u8, 101u8, 97u8, 114u8]);
    assert(remove =~= seq![114u8, 101u8, 109u8, 111u8, 118u8, 101u8, 58u8]);
    if longer == clear {
        assert(clear[content.len() as int] == 44u8);
    }
    if has_prefix(longer, remove) {
        if content.len() >= 7 {
            assert(content.take(7) =~= longer.take(7));
        } else {
            assert(longer.take(7)[content.len() as int] == 44u8);
        }
    }
}

/// `key:value` with an unknown key changes no spec.
proof fn lemma_unknown_pair(m: TileSpecModel, key: Seq<u8>, val: Seq<u8>)
    requires
        !is_known_key(key),
        forall|i: int| 0 <= i < key.len() ==> key[i] != 58u8,
    ensures
        apply_pair(m, key + seq![58u8] + val) == Some(m),
{
    let pair = key + seq![58u8] + val;
    assert forall|j: int| 0 <= j < key.len() implies pair[j] != 58u8 by {
        assert(pair[j] == key[j]);
    }
    crate::text::lemma_first_index_of(pair, 58u8, key.len() as int);
    assert(pair.take(key.len() as int) =~= key);
    assert(pair.skip(key.len() as int + 1) =~= val);
}

/// A parameter whose key the protocol does not know changes nothing: appending
/// `,key:value` to parameters that describe a tile describes the same tile.
pub proof fn law_unknown_key_ignored(params: Seq<u8>, key: Seq<u8>, val: Seq<u8>)
    requires
        spec_parse(params) matches Some(TileCommandModel::Insert(_)),
        !is_known_key(key),
        valid_utf8(key),
        valid_utf8(val),
        forall|i: int| 0 <= i < key.len() ==> key[i] != 58u8 && key[i] != 44u8,
        forall|i: int| 0 <= i < val.len() ==> val[i] != 44u8,
    ensures
        spec_parse(params + seq![44u8] + key + seq![58u8] + val) == spec_parse(params),
{
    let pair = key + seq![58u8] + val;
    let longer = params + seq![44u8] + pair;
    assert(longer =~= params + seq![44u8] + key + seq![58u8] + val);
    let content = params.skip(5);
    let longer_content = longer.skip(5);
    assert(valid_utf8(longer)) by {
        lemma_ascii_byte_utf8(44u8);
        lemma_ascii_byte_utf8(58u8);
        vstd::utf8::valid_utf8_concat(key, seq![58u8]);
        vstd::utf8::valid_utf8_concat(key + seq![58u8], val);
        vstd::utf8::valid_utf8_concat(params, seq![44u8]);
        vstd::utf8::valid_utf8_concat(params + seq![44u8], pair);
    }
    assert(longer.take(5) =~= params.take(5));
    assert(longer_content =~= content + seq![44u8] + pair);
    assert(longer_content.take(content.len() as int) =~= content);
    lemma_extended_content(content, longer_content);
    assert(forall|i: int| 0 <= i < pair.len() ==> pair[i] != 44u8) by {
        assert forall|i: int| 0 <= i < pair.len() implies pair[i] != 44u8 by {
            if i < key.len() {
                assert(pair[i] == key[i]);
            } else if i > key.len() {
                assert(pair[i] == val[i - key.len() - 1]);
            }
        }
    }
    let pieces = split_on(content, 44u8);
    assert(split_on(longer_content, 44u8) == pieces.push(pair)) by {
        crate::text::law_split_concat(content, pair, 44u8);
        crate::text::lemma_split_without_sep(pair, 44u8);
        assert(pieces + seq![pair] =~= pieces.push(pair));
    }
    lemma_apply_pairs_push(default_spec(), pieces, pair);
    if let Some(m) = apply_pairs(default_spec(), pieces) {
        lemma_unknown_pair(m, key, val);
    }
}


/// For one key the last value wins: a parameter that an earlier one with the same
/// key preceded gives what it would have given alone.
pub proof fn law_last_value_wins(m: TileSpecModel, key: Seq<u8>, first: Seq<u8>, second: Seq<u8>)
    requires
        m.custom.len() == 4,
        apply_param(m, key, first) is Some,
    ensures
        apply_param(apply_param(m, key, first)->0, key, second) == apply_param(m, key, second),
{
    let m1 = apply_param(m, key, first)->0;
    if key == ascii(seq!['r']) {
        assert(m1.custom.update(0, second) =~= m.custom.update(0, second));
    } else if key == ascii(seq!['g']) {
        assert(m1.custom.update(1, second) =~= m.custom.update(1, second));
    } else if key == ascii(seq!['b']) {
        assert(m1.custom.update(2, second) =~= m.custom.update(2, second));
    } else if key == ascii(seq!['a']) {
        assert(m1.custom.update(3, second) =~= m.custom.update(3, second));
    }
}


/// A parameter changes only the field its key names: every other field of the
/// spec, and all of them for a key the protocol does not know, stay as they were.
pub proof fn law_param_changes_only_its_field(m: TileSpecModel, key: Seq<u8>, val: Seq<u8>)
    requires
        m.custom.len() == 4,
    ensures
        apply_param(m, key, val) matches Some(r) ==> {
            &&& r.custom.len() == 4
            &&& (key != ascii(seq!['x']) ==> r.x == m.x)
            &&& (key != ascii(seq!['y']) ==> r.y == m.y)
            &&& (key != ascii(seq!['w']) ==> r.width == m.width)
            &&& (key != ascii(seq!['h']) ==> r.height == m.height)
            &&& (key != ascii(seq!['t', 'i', 'm', 'e', '_', 'o', 'f', 'f', 's', 'e', 't']) ==> r.time_offset == m.time_offset)
            &&& (key != ascii(seq!['r']) ==> r.custom[0] == m.custom[0])
            &&& (key != ascii(seq!['g']) ==> r.custom[1] == m.custom[1])
            &&& (key != ascii(seq!['b']) ==> r.custom[2] == m.custom[2])
            &&& (key != ascii(seq!['a']) ==> r.custom[3] == m.custom[3])
            &&& (key != ascii(seq!['i', 'd']) ==> r.id == m.id)
            &&& (key != ascii(seq!['s', 'h', 'a', 'd', 'e', 'r']) ==> r.shader == m.shader)
            &&& (key != ascii(seq!['k', 'i', 'n', 'd']) ==> r.kind == m.kind)
        },
{
}

/// The protocol's keys are pairwise different words.
proof fn lemma_keys_differ()
    ensures
        ascii(seq!['x']) != ascii(seq!['y']),
        ascii(seq!['x']) != ascii(seq!['w']),
        ascii(seq!['x']) != ascii(seq!['h']),
        ascii(seq!['x']) != ascii(seq!['t', 'i', 'm', 'e', '_', 'o', 'f', 'f', 's', 'e', 't']),
        ascii(seq!['x']) != ascii(seq!['r']),
        ascii(seq!['x']) != ascii(seq!['g']),
        ascii(seq!['x']) != ascii(seq!['b']),
        ascii(seq!['x']) != ascii(seq!['a']),
        ascii(seq!['x']) != ascii(seq!['i', 'd']),
        ascii(seq!['x']) != ascii(seq!['s', 'h', 'a', 'd', 'e', 'r']),
        ascii(seq!['x']) != ascii(seq!['k', 'i', 'n', 'd']),
        ascii(seq!['y']) != ascii(seq!['w']),
        ascii(seq!['y']) != ascii(seq!['h']),
        ascii(seq!['y']) != ascii(seq!['t', 'i', 'm', 'e', '_', 'o', 'f', 'f', 's', 'e', 't']),
        ascii(seq!['y']) != ascii(seq!['r']),
        ascii(seq!['y']) != ascii(seq!['g']),
        ascii(seq!['y']) != ascii(seq!['b']),
        ascii(seq!['y']) != ascii(seq!['a']),
        ascii(seq!['y']) != ascii(seq!['i', 'd']),
        ascii(seq!['y']) != ascii(seq!['s', 'h', 'a', 'd', 'e', 'r']),
        ascii(seq!['y']) != ascii(seq!['k', 'i', 'n', 'd']),
        ascii(seq!['w']) != ascii(seq!['h']),
        ascii(seq!['w']) != ascii(seq!['t', 'i', 'm', 'e', '_', 'o', 'f', 'f', 's', 'e', 't']),
        ascii(seq!['w']) != ascii(seq!['r']),
        ascii(seq!['w']) != ascii(seq!['g']),
        ascii(seq!['w']) != ascii(seq!['b']),
        ascii(seq!['w']) != ascii(seq!['a']),
        ascii(seq!['w']) != ascii(seq!['i', 'd']),
        ascii(seq!['w']) != ascii(seq!['s', 'h', 'a', 'd', 'e', 'r']),
        ascii(seq!['w']) != ascii(seq!['k', 'i', 'n', 'd']),
        ascii(seq!['h']) != ascii(seq!['t', 'i', 'm', 'e', '_', 'o', 'f', 'f', 's', 'e', 't']),
        ascii(seq!['h']) != ascii(seq!['r']),
        ascii(seq!['h']) != ascii(seq!['g']),
        ascii(seq!['h']) != ascii(seq!['b']),
        ascii(seq!['h']) != ascii(seq!['a']),
        ascii(seq!['h']) != ascii(seq!['i', 'd']),
        ascii(seq!['h']) != ascii(seq!['s', 'h', 'a', 'd', 'e', 'r']),
        ascii(seq!['h']) != ascii(seq!['k', 'i', 'n', 'd']),
        ascii(seq!['t', 'i', 'm', 'e', '_', 'o', 'f', 'f', 's', 'e', 't']) != ascii(seq!['r']),
        ascii(seq!['t', 'i', 'm', 'e', '_', 'o', 'f', 'f', 's', 'e', 't']) != ascii(seq!['g']),
        ascii(seq!['t', 'i', 'm', 'e', '_', 'o', 'f', 'f', 's', 'e', 't']) != ascii(seq!['b']),
        ascii(seq!['t', 'i', 'm', 'e', '_', 'o', 'f', 'f', 's', 'e', 't']) != ascii(seq!['a']),
        ascii(seq!['t', 'i', 'm', 'e', '_', 'o', 'f', 'f', 's', 'e', 't']) != ascii(seq!['i', 'd']),
        ascii(seq!['t', 'i', 'm', 'e', '_', 'o', 'f', 'f', 's', 'e', 't']) != ascii(seq!['s', 'h', 'a', 'd', 'e', 'r']),
        ascii(seq!['t', 'i', 'm', 'e', '_', 'o', 'f', 'f', 's', 'e', 't']) != ascii(seq!['k', 'i', 'n', 'd']),
        ascii(seq!['r']) != ascii(seq!['g']),
        ascii(seq!['r']) != ascii(seq!['b']),
        ascii(seq!['r']) != ascii(seq!['a']),
        ascii(seq!['r']) != ascii(seq!['i', 'd']),
        ascii(seq!['r']) != ascii(seq!['s', 'h', 'a', 'd', 'e', 'r']),
        ascii(seq!['r']) != ascii(seq!['k', 'i', 'n', 'd']),
        ascii(seq!['g']) != ascii(seq!['b']),
        ascii(seq!['g']) != ascii(seq!['a']),
        ascii(seq!['g']) != ascii(seq!['i', 'd']),
        ascii(seq!['g']) != ascii(seq!['s', 'h', 'a', 'd', 'e', 'r']),
        ascii(seq!['g']) != ascii(seq!['k', 'i', 'n', 'd']),
        ascii(seq!['b']) != ascii(seq!['a']),
        ascii(seq!['b']) != ascii(seq!['i', 'd']),
        ascii(seq!['b']) != ascii(seq!['s', 'h', 'a', 'd', 'e', 'r']),
        ascii(seq!['b']) != ascii(seq!['k', 'i', 'n', 'd']),
        ascii(seq!['a']) != ascii(seq!['i', 'd']),
        ascii(seq!['a']) != ascii(seq!['s', 'h', 'a', 'd', 'e', 'r']),
        ascii(seq!['a']) != ascii(seq!['k', 'i', 'n', 'd']),
        ascii(seq!['i', 'd']) != ascii(seq!['s', 'h', 'a', 'd', 'e', 'r']),
        ascii(seq!['i', 'd']) != ascii(seq!['k', 'i', 'n', 'd']),
        ascii(seq!['s', 'h', 'a', 'd', 'e', 'r']) != ascii(seq!['k', 'i', 'n', 'd']),
{
    assert(ascii(seq!['x']) =~= seq![120u8]);
    assert(ascii(seq!['y']) =~= seq![121u8]);
    assert(ascii(seq!['w']) =~= seq![119u8]);
    assert(ascii(seq!['h']) =~= seq![104u8]);
    assert(ascii(seq!['t', 'i', 'm', 'e', '_', 'o', 'f', 'f', 's', 'e', 't']) =~= seq![116u8, 105u8, 109u8, 101u8, 95u8, 111u8, 102u8, 102u8, 115u8, 101u8, 116u8]);
    assert(ascii(seq!['r']) =~= seq![114u8]);
    assert(ascii(seq!['g']) =~= seq![103u8]);
    assert(ascii(seq!['b']) =~= seq![98u8]);
    assert(ascii(seq!['a']) =~= seq![97u8]);
    assert(ascii(seq!['i', 'd']) =~= seq![105u8, 100u8]);
    assert(ascii(seq!['s', 'h', 'a', 'd', 'e', 'r']) =~= seq![115u8, 104u8, 97u8, 100u8, 101u8, 114u8]);
    assert(ascii(seq!['k', 'i', 'n', 'd']) =~= seq![107u8, 105u8, 110u8, 100u8]);
    assert(seq![120u8][0] != seq![121u8][0]);
    assert(seq![120u8][0] != seq![119u8][0]);
    assert(seq![120u8][0] != seq![104u8][0]);
    assert(seq![120u8].len() != seq![116u8, 105u8, 109u8, 101u8, 95u8, 111u8, 102u8, 102u8, 115u8, 101u8, 116u8].len());
    assert(seq![120u8][0] != seq![114u8][0]);
    assert(seq![120u8][0] != seq![103u8][0]);
    assert(seq![120u8][0] != seq![98u8][0]);
    assert(seq![120u8][0] != seq![97u8][0]);
    assert(seq![120u8].len() != seq![105u8, 100u8].len());
    assert(seq![120u8].len() != seq![115u8, 104u8, 97u8, 100u8, 101u8, 114u8].len());
    assert(seq![120u8].len() != seq![107u8, 105u8, 110u8, 100u8].len());
    assert(seq![121u8][0] != seq![119u8][0]);
    assert(seq![121u8][0] != seq![104u8][0]);
    assert(seq![121u8].len() != seq![116u8, 105u8, 109u8, 101u8, 95u8, 111u8, 102u8, 102u8, 115u8, 101u8, 116u8].len());
    assert(seq![121u8][0] != seq![114u8][0]);
    assert(seq![121u8][0] != seq![103u8][0]);
    assert(seq![121u8][0] != seq![98u8][0]);
    assert(seq![121u8][0] != seq![97u8][0]);
    assert(seq![121u8].len() != seq![105u8, 100u8].len());
    assert(seq![121u8].len() != seq![115u8, 104u8, 97u8, 100u8, 101u8, 114u8].len());
    assert(seq![121u8].len() != seq![107u8, 105u8, 110u8, 100u8].len());
    assert(seq![119u8][0] != seq![104u8][0]);
    assert(seq![119u8].len() != seq![116u8, 105u8, 109u8, 101u8, 95u8, 111u8, 102u8, 102u8, 115u8, 101u8, 116u8].len());
    assert(seq![119u8][0] != seq![114u8][0]);
    assert(seq![119u8][0] != seq![103u8][0]);
    assert(seq![119u8][0] != seq![98u8][0]);
    assert(seq![119u8][0] != seq![97u8][0]);
    assert(seq![119u8].len() != seq![105u8, 100u8].len());
    assert(seq![119u8].len() != seq![115u8, 104u8, 97u8, 100u8, 101u8, 114u8].len());
    assert(seq![119u8].len() != seq![107u8, 105u8, 110u8, 100u8].len());
    assert(seq![104u8].len() != seq![116u8, 105u8, 109u8, 101u8, 95u8, 111u8, 102u8, 102u8, 115u8, 101u8, 116u8].len());
    assert(seq![104u8][0] != seq![114u8][0]);
    assert(seq![104u8][0] != seq![103u8][0]);
    assert(seq![104u8][0] != seq![98u8][0]);
    assert(seq![104u8][0] != seq![97u8][0]);
    assert(seq![104u8].len() != seq![105u8, 100u8].len());
    assert(seq![104u8].len() != seq![115u8, 104u8, 97u8, 100u8, 101u8, 114u8].len());
    assert(seq![104u8].len() != seq![107u8, 105u8, 110u8, 100u8].len());
    assert(seq![116u8, 105u8, 109u8, 101u8, 95u8, 111u8, 102u8, 102u8, 115u8, 101u8, 116u8].len() != seq![114u8].len());
    assert(seq![116u8, 105u8, 109u8, 101u8, 95u8, 111u8, 102u8, 102u8, 115u8, 101u8, 116u8].len() != seq![103u8].len());
    assert(seq![116u8, 105u8, 109u8, 101u8, 95u8, 111u8, 102u8, 102u8, 115u8, 101u8, 116u8].len() != seq![98u8].len());
    assert(seq![116u8, 105u8, 109u8, 101u8, 95u8, 111u8, 102u8, 102u8, 115u8, 101u8, 116u8].len() != seq![97u8].len());
    assert(seq![116u8, 105u8, 109u8, 101u8, 95u8, 111u8, 102u8, 102u8, 115u8, 101u8, 116u8].len() != seq![105u8, 100u8].len());
    assert(seq![116u8, 105u8, 109u8, 101u8, 95u8, 111u8, 102u8, 102u8, 115u8, 101u8, 116u8].len() != seq![115u8, 104u8, 97u8, 100u8, 101u8, 114u8].len());
    assert(seq![116u8, 105u8, 109u8, 101u8, 95u8, 111u8, 102u8, 102u8, 115u8, 101u8, 116u8].len() != seq![107u8, 105u8, 110u8, 100u8].len());
    assert(seq![114u8][0] != seq![103u8][0]);
    assert(seq![114u8][0] != seq![98u8][0]);
    assert(seq![114u8][0] != seq![97u8][0]);
    assert(seq![114u8].len() != seq![105u8, 100u8].len());
    assert(seq![114u8].len() != seq![115u8, 104u8, 97u8, 100u8, 101u8, 114u8].len());
    assert(seq![114u8].len() != seq![107u8, 105u8, 110u8, 100u8].len());
    assert(seq![103u8][0] != seq![98u8][0]);
    assert(seq![103u8][0] != seq![97u8][0]);
    assert(seq![103u8].len() != seq![105u8, 100u8].len());
    assert(seq![103u8].len() != seq![115u8, 104u8, 97u8, 100u8, 101u8, 114u8].len());
    assert(seq![103u8].len() != seq![107u8, 105u8, 110u8, 100u8].len());
    assert(seq![98u8][0] != seq![97u8][0]);
    assert(seq![98u8].len() != seq![105u8, 100u8].len());
    assert(seq![98u8].len() != seq![115u8, 104u8, 97u8, 100u8, 101u8, 114u8].len());
    assert(seq![98u8].len() != seq![107u8, 105u8, 110u8, 100u8].len());
    assert(seq![97u8].len() != seq![105u8, 100u8].len());
    assert(seq![97u8].len() != seq![115u8, 104u8, 97u8, 100u8, 101u8, 114u8].len());
    assert(seq![97u8].len() != seq![107u8, 105u8, 110u8, 100u8].len());
    assert(seq![105u8, 100u8].len() != seq![115u8, 104u8, 97u8, 100u8, 101u8, 114u8].len());
    assert(seq![105u8, 100u8].len() != seq![107u8, 105u8, 110u8, 100u8].len());
    assert(seq![115u8, 104u8, 97u8, 100u8, 101u8, 114u8].len() != seq![107u8, 105u8, 110u8, 100u8].len());
}

/// A floating-point parameter takes exactly the float literals and sets its field
/// to the text given; `id` takes exactly the `u64` numbers and sets the id to the
/// number; `kind` and `shader` set their fields to what their values name.
pub proof fn law_param_sets_its_field(m: TileSpecModel, key: Seq<u8>, val: Seq<u8>)
    requires
        m.custom.len() == 4,
    ensures
        key == ascii(seq!['x']) ==> (apply_param(m, key, val) is Some <==> is_float_literal(val)) && (is_float_literal(val) ==> apply_param(m, key, val)->0.x == val),
        key == ascii(seq!['y']) ==> (apply_param(m, key, val) is Some <==> is_float_literal(val)) && (is_float_literal(val) ==> apply_param(m, key, val)->0.y == val),
        key == ascii(seq!['w']) ==> (apply_param(m, key, val) is Some <==> is_float_literal(val)) && (is_float_literal(val) ==> apply_param(m, key, val)->0.width == val),
        key == ascii(seq!['h']) ==> (apply_param(m, key, val) is Some <==> is_float_literal(val)) && (is_float_literal(val) ==> apply_param(m, key, val)->0.height == val),
        key == ascii(seq!['t', 'i', 'm', 'e', '_', 'o', 'f', 'f', 's', 'e', 't']) ==> (apply_param(m, key, val) is Some <==> is_float_literal(val)) && (is_float_literal(val) ==> apply_param(m, key, val)->0.time_offset == val),
        key == ascii(seq!['r']) ==> (apply_param(m, key, val) is Some <==> is_float_literal(val)) && (is_float_literal(val) ==> apply_param(m, key, val)->0.custom[0] == val),
        key == ascii(seq!['g']) ==> (apply_param(m, key, val) is Some <==> is_float_literal(val)) && (is_float_literal(val) ==> apply_param(m, key, val)->0.custom[1] == val),
        key == ascii(seq!['b']) ==> (apply_param(m, key, val) is Some <==> is_float_literal(val)) && (is_float_literal(val) ==> apply_param(m, key, val)->0.custom[2] == val),
        key == ascii(seq!['a']) ==> (apply_param(m, key, val) is Some <==> is_float_literal(val)) && (is_float_literal(val) ==> apply_param(m, key, val)->0.custom[3] == val),
        key == ascii(seq!['i', 'd']) ==> (apply_param(m, key, val) is Some <==> spec_parse_unsigned(val, u64::MAX as nat) is Some) && (spec_parse_unsigned(val, u64::MAX as nat) matches Some(n) ==> apply_param(m, key, val)->0.id == n),
        key == ascii(seq!['k', 'i', 'n', 'd']) ==> (apply_param(m, key, val) is Some <==> spec_parse_kind(val) is Some) && (spec_parse_kind(val) matches Some(k) ==> apply_param(m, key, val)->0.kind == k),
        key == ascii(seq!['s', 'h', 'a', 'd', 'e', 'r']) ==> (apply_param(m, key, val) is Some <==> spec_parse_shader(val) is Some) && (spec_parse_shader(val) matches Some(sh) ==> apply_param(m, key, val)->0.shader == sh),
{
    lemma_keys_differ();
}


/// A `key:value` piece whose key holds no `:` applies that key to that value.
proof fn lemma_pair_is_param(m: TileSpecModel, key: Seq<u8>, val: Seq<u8>)
    requires
        forall|i: int| 0 <= i < key.len() ==> key[i] != 58u8,
    ensures
        apply_pair(m, key + seq![58u8] + val) == apply_param(m, key, val),
{
    let pair = key + seq![58u8] + val;
    assert forall|j: int| 0 <= j < key.len() implies pair[j] != 58u8 by {
        assert(pair[j] == key[j]);
    }
    crate::text::lemma_first_index_of(pair, 58u8, key.len() as int);
    assert(pair.take(key.len() as int) =~= key);
    assert(pair.skip(key.len() as int + 1) =~= val);
}

/// Appending `,key:value` to parameters that describe a tile describes that tile
/// with the parameter applied (or nothing, where the value is refused).
pub proof fn law_append_param(params: Seq<u8>, key: Seq<u8>, val: Seq<u8>)
    requires
        spec_parse(params) is Some,
        spec_parse(params)->0 is Insert,
        valid_utf8(key),
        valid_utf8(val),
        forall|i: int| 0 <= i < key.len() ==> key[i] != 58u8 && key[i] != 44u8,
        forall|i: int| 0 <= i < val.len() ==> val[i] != 44u8,
    ensures
        spec_parse(params + seq![44u8] + key + seq![58u8] + val) == match apply_param(
            spec_parse(params)->0->Insert_0,
            key,
            val,
        ) {
            Some(r) => Some(TileCommandModel::Insert(r)),
            None => None,
        },
{
    let pair = key + seq![58u8] + val;
    let longer = params + seq![44u8] + pair;
    assert(longer =~= params + seq![44u8] + key + seq![58u8] + val);
    let content = params.skip(5);
    let longer_content = longer.skip(5);
    assert(valid_utf8(longer)) by {
        lemma_ascii_byte_utf8(44u8);
        lemma_ascii_byte_utf8(58u8);
        vstd::utf8::valid_utf8_concat(key, seq![58u8]);
        vstd::utf8::valid_utf8_concat(key + seq![58u8], val);
        vstd::utf8::valid_utf8_concat(params, seq![44u8]);
        vstd::utf8::valid_utf8_concat(params + seq![44u8], pair);
    }
    assert(longer.take(5) =~= params.take(5));
    assert(longer_content =~= content + seq![44u8] + pair);
    assert(longer_content.take(content.len() as int) =~= content);
    lemma_extended_content(content, longer_content);
    assert(forall|i: int| 0 <= i < pair.len() ==> pair[i] != 44u8) by {
        assert forall|i: int| 0 <= i < pair.len() implies pair[i] != 44u8 by {
            if i < key.len() {
                assert(pair[i] == key[i]);
            } else if i > key.len() {
                assert(pair[i] == val[i - key.len() - 1]);
            }
        }
    }
    let pieces = split_on(content, 44u8);
    assert(split_on(longer_content, 44u8) == pieces.push(pair)) by {
        crate::text::law_split_concat(content, pair, 44u8);
        crate::text::lemma_split_without_sep(pair, 44u8);
        assert(pieces + seq![pair] =~= pieces.push(pair));
    }
    lemma_apply_pairs_push(default_spec(), pieces, pair);
    if let Some(m) = apply_pairs(default_spec(), pieces) {
        lemma_pair_is_param(m, key, val);
    }
}

/// `Tile=key:value` alone describes the default tile with that one parameter
/// applied (or nothing, where the value is refused); `remove` is the one key
/// that makes a different request.
pub proof fn law_single_param(key: Seq<u8>, val: Seq<u8>)
    requires
        key != ascii(seq!['r', 'e', 'm', 'o', 'v', 'e']),
        valid_utf8(key),
        valid_utf8(val),
        forall|i: int| 0 <= i < key.len() ==> key[i] != 58u8 && key[i] != 44u8,
        forall|i: int| 0 <= i < val.len() ==> val[i] != 44u8,
    ensures
        spec_parse(ascii(seq!['T', 'i', 'l', 'e', '=']) + key + seq![58u8] + val) == match apply_param(
            default_spec(),
            key,
            val,
        ) {
            Some(r) => Some(TileCommandModel::Insert(r)),
            None => None,
        },
{
    let tile = ascii(seq!['T', 'i', 'l', 'e', '=']);
    let tile_bytes = seq![84u8, 105u8, 108u8, 101u8, 61u8];
    assert(tile =~= tile_bytes);
    let pair = key + seq![58u8] + val;
    let params = tile + key + seq![58u8] + val;
    assert(params =~= tile + pair);
    assert(valid_utf8(params)) by {
        lemma_ascii_byte_utf8(84u8);
        lemma_ascii_byte_utf8(105u8);
        lemma_ascii_byte_utf8(108u8);
        lemma_ascii_byte_utf8(101u8);
        lemma_ascii_byte_utf8(61u8);
        lemma_ascii_byte_utf8(58u8);
        vstd::utf8::valid_utf8_concat(seq![84u8], seq![105u8]);
        vstd::utf8::valid_utf8_concat(seq![84u8] + seq![105u8], seq![108u8]);
        vstd::utf8::valid_utf8_concat(seq![84u8] + seq![105u8] + seq![108u8], seq![101u8]);
        vstd::utf8::valid_utf8_concat(
            seq![84u8] + seq![105u8] + seq![108u8] + seq![101u8],
            seq![61u8],
        );
        assert(seq![84u8] + seq![105u8] + seq![108u8] + seq![101u8] + seq![61u8] =~= tile_bytes);
        vstd::utf8::valid_utf8_concat(key, seq![58u8]);
        vstd::utf8::valid_utf8_concat(key + seq![58u8], val);
        vstd::utf8::valid_utf8_concat(tile, pair);
    }
    assert(params.take(5) =~= tile);
    let content = params.skip(5);
    assert(content =~= pair);
    let clear = ascii(seq!['c', 'l', 'e', 'a', 'r']);
    let remove = ascii(seq!['r', 'e', 'm', 'o', 'v', 'e', ':']);
    assert(clear =~= seq![99u8, 108u8, 101u8, 97u8, 114u8]);
    assert(remove =~= seq![114u8, 101u8, 109u8, 111u8, 118u8, 101u8, 58u8]);
    assert(pair[key.len() as int] == 58u8);
    assert(pair != clear) by {
        if pair == clear {
            assert(clear[key.len() as int] == 58u8);
        }
    }
    assert(!has_prefix(pair, remove)) by {
        if has_prefix(pair, remove) {
            if key.len() < 6 {
                assert(pair.take(7)[key.len() as int] == 58u8);
            } else if key.len() == 6 {
                assert(key =~= pair.take(6));
                assert(pair.take(6) =~= remove.take(6));
                assert(ascii(seq!['r', 'e', 'm', 'o', 'v', 'e']) =~= remove.take(6));
            } else {
                assert(pair.take(7)[6] == key[6]);
            }
        }
    }
    assert(forall|i: int| 0 <= i < pair.len() ==> pair[i] != 44u8) by {
        assert forall|i: int| 0 <= i < pair.len() implies pair[i] != 44u8 by {
            if i < key.len() {
                assert(pair[i] == key[i]);
            } else if i > key.len() {
                assert(pair[i] == val[i - key.len() - 1]);
            }
        }
    }
    crate::text::lemma_split_without_sep(pair, 44u8);
    lemma_apply_pairs_push(default_spec(), Seq::<Seq<u8>>::empty(), pair);
    assert(Seq::<Seq<u8>>::empty().push(pair) =~= seq![pair]);
    lemma_pair_is_param(default_spec(), key, val);
}

} // verus!
