//! The picture of a keyboard, stated as an element tree: what each key,
//! block, half, layer and the whole document hold.

use crate::face::{face_of, Press};
use crate::label::legends;
use crate::lexer::chars_of;
use crate::render::{key_at, KeyShape};
use crate::svgnode::NodeV;
use crate::text::decimal_digits;
use crate::types::{ActionV, KeyV};
use vstd::prelude::*;

verus! {

/// The decimal numeral of `n`.
pub open spec fn dec(n: nat) -> Seq<char> {
    chars_of(decimal_digits(n))
}

/// An element with attributes and child elements.
pub open spec fn el(tag: Seq<char>, attrs: Seq<(Seq<char>, Seq<char>)>, children: Seq<NodeV>) -> NodeV {
    NodeV { tag, attrs, texts: seq![], children }
}

/// An element that holds one text.
pub open spec fn text_el(tag: Seq<char>, attrs: Seq<(Seq<char>, Seq<char>)>, text: Seq<char>) -> NodeV {
    NodeV { tag, attrs, texts: seq![text], children: seq![] }
}

pub open spec fn rect_v(x: nat, y: nat, w: nat, h: nat, r: nat, stroke: Seq<char>, fill: Seq<char>) -> NodeV {
    el(
        "rect"@,
        seq![
            ("x"@, dec(x)),
            ("y"@, dec(y)),
            ("width"@, dec(w)),
            ("height"@, dec(h)),
            ("rx"@, dec(r)),
            ("ry"@, dec(r)),
            ("stroke"@, stroke),
            ("fill"@, fill),
        ],
        seq![],
    )
}

/// The outline of a key of width `w` and height `h`: a white backing, the
/// outer edge and the inner face.
pub open spec fn outline(w: nat, h: nat) -> NodeV {
    el(
        "g"@,
        seq![],
        seq![
            rect_v(1, 1, (w - 2) as nat, (h - 2) as nat, 15, "white"@, "white"@),
            rect_v(1, 1, (w - 2) as nat, (h - 2) as nat, 15, "#A5A5A5"@, "url(#keyoutside)"@),
            rect_v(10, 7, (w - 20) as nat, (h - 20) as nat, 10, "#F9F9F9"@, "url(#keyinside)"@),
        ],
    )
}

/// `translate(x,y)`
pub open spec fn translate_text(x: nat, y: nat) -> Seq<char> {
    "translate("@ + dec(x) + ","@ + dec(y) + ")"@
}

/// `name(n)`, a call of a layer handler of the picture's script.
pub open spec fn call_text(name: Seq<char>, n: nat) -> Seq<char> {
    name + "("@ + dec(n) + ")"@
}

/// The handlers that switch layers when the key is pressed.
pub open spec fn press_attrs(p: Press) -> Seq<(Seq<char>, Seq<char>)> {
    match p {
        Press::Plain => seq![],
        Press::OnlyLayer(l) => seq![("onclick"@, call_text("onlylayer"@, l as nat))],
        Press::Momentary(l) => seq![
            ("onmousedown"@, call_text("templayeron"@, l as nat)),
            ("onmouseup"@, call_text("templayeroff"@, l as nat)),
        ],
    }
}

/// The two texts of a caption: its shifted legend at its height, its normal
/// legend a quarter key lower.
pub open spec fn caption_texts(c: (Seq<char>, u64)) -> Seq<NodeV> {
    seq![
        text_el("text"@, seq![("x"@, dec(50)), ("y"@, dec(c.1 as nat)), ("class"@, "shifted"@)], legends(c.0).1),
        text_el(
            "text"@,
            seq![("x"@, dec(50)), ("y"@, dec((c.1 + 25) as nat)), ("id"@, c.0), ("class"@, "normal"@)],
            legends(c.0).0,
        ),
    ]
}

pub open spec fn caption_nodes(cs: Seq<(Seq<char>, u64)>) -> Seq<NodeV>
    decreases cs.len(),
{
    if cs.len() == 0 {
        seq![]
    } else {
        caption_nodes(cs.drop_last()) + caption_texts(cs.last())
    }
}

/// A key is named after its last caption.
pub open spec fn id_attr(cs: Seq<(Seq<char>, u64)>) -> Seq<(Seq<char>, Seq<char>)> {
    if cs.len() == 0 {
        seq![]
    } else {
        seq![("id"@, cs.last().0)]
    }
}

/// One key: its outline moved to `(x, y)`, its handlers and its captions.
pub open spec fn key_node(x: u64, y: u64, shape: KeyShape, face: (Press, Seq<(Seq<char>, u64)>)) -> NodeV {
    el(
        "g"@,
        seq![("transform"@, translate_text(x as nat, y as nat))] + press_attrs(face.0) + id_attr(face.1),
        outline(shape.size_spec().0 as nat, shape.size_spec().1 as nat).children + caption_nodes(face.1),
    )
}

/// Left edge, top edge and outline of the keys of a block, in key order.
pub open spec fn left_main_places() -> Seq<(u64, u64, KeyShape)> {
    seq![
        (0u64, 0u64, KeyShape::K15h), (150u64, 0u64, KeyShape::K10u), (250u64, 0u64, KeyShape::K10u),
        (350u64, 0u64, KeyShape::K10u), (450u64, 0u64, KeyShape::K10u), (550u64, 0u64, KeyShape::K10u),
        (650u64, 0u64, KeyShape::K10u),
        (0u64, 100u64, KeyShape::K15h), (150u64, 100u64, KeyShape::K10u), (250u64, 100u64, KeyShape::K10u),
        (350u64, 100u64, KeyShape::K10u), (450u64, 100u64, KeyShape::K10u), (550u64, 100u64, KeyShape::K10u),
        (650u64, 100u64, KeyShape::K15v),
        (0u64, 200u64, KeyShape::K15h), (150u64, 200u64, KeyShape::K10u), (250u64, 200u64, KeyShape::K10u),
        (350u64, 200u64, KeyShape::K10u), (450u64, 200u64, KeyShape::K10u), (550u64, 200u64, KeyShape::K10u),
        (0u64, 300u64, KeyShape::K15h), (150u64, 300u64, KeyShape::K10u), (250u64, 300u64, KeyShape::K10u),
        (350u64, 300u64, KeyShape::K10u), (450u64, 300u64, KeyShape::K10u), (550u64, 300u64, KeyShape::K10u),
        (650u64, 250u64, KeyShape::K15v),
        (50u64, 400u64, KeyShape::K10u), (150u64, 400u64, KeyShape::K10u), (250u64, 400u64, KeyShape::K10u),
        (350u64, 400u64, KeyShape::K10u), (450u64, 400u64, KeyShape::K10u),
    ]
}

/// Left edge, top edge and outline of the keys of a block, in key order.
pub open spec fn left_thumb_places() -> Seq<(u64, u64, KeyShape)> {
    seq![
        (100u64, 0u64, KeyShape::K10u), (200u64, 0u64, KeyShape::K10u), (200u64, 100u64, KeyShape::K10u),
        (0u64, 100u64, KeyShape::K20v), (100u64, 100u64, KeyShape::K20v), (200u64, 200u64, KeyShape::K10u),
    ]
}

/// Left edge, top edge and outline of the keys of a block, in key order.
pub open spec fn right_main_places() -> Seq<(u64, u64, KeyShape)> {
    seq![
        (0u64, 0u64, KeyShape::K10u), (100u64, 0u64, KeyShape::K10u), (200u64, 0u64, KeyShape::K10u),
        (300u64, 0u64, KeyShape::K10u), (400u64, 0u64, KeyShape::K10u), (500u64, 0u64, KeyShape::K10u),
        (600u64, 0u64, KeyShape::K15h),
        (0u64, 100u64, KeyShape::K15v), (100u64, 100u64, KeyShape::K10u), (200u64, 100u64, KeyShape::K10u),
        (300u64, 100u64, KeyShape::K10u), (400u64, 100u64, KeyShape::K10u), (500u64, 100u64, KeyShape::K10u),
        (600u64, 100u64, KeyShape::K15h),
        (100u64, 200u64, KeyShape::K10u), (200u64, 200u64, KeyShape::K10u), (300u64, 200u64, KeyShape::K10u),
        (400u64, 200u64, KeyShape::K10u), (500u64, 200u64, KeyShape::K10u), (600u64, 200u64, KeyShape::K15h),
        (0u64, 250u64, KeyShape::K15v), (100u64, 300u64, KeyShape::K10u), (200u64, 300u64, KeyShape::K10u),
        (300u64, 300u64, KeyShape::K10u), (400u64, 300u64, KeyShape::K10u), (500u64, 300u64, KeyShape::K10u),
        (600u64, 300u64, KeyShape::K15h),
        (200u64, 400u64, KeyShape::K10u), (300u64, 400u64, KeyShape::K10u), (400u64, 400u64, KeyShape::K10u),
        (500u64, 400u64, KeyShape::K10u), (600u64, 400u64, KeyShape::K10u),
    ]
}

/// Left edge, top edge and outline of the keys of a block, in key order.
pub open spec fn right_thumb_places() -> Seq<(u64, u64, KeyShape)> {
    seq![
        (0u64, 0u64, KeyShape::K10u), (100u64, 0u64, KeyShape::K10u), (0u64, 100u64, KeyShape::K10u),
        (0u64, 200u64, KeyShape::K10u), (100u64, 100u64, KeyShape::K20v), (200u64, 100u64, KeyShape::K20v),
    ]
}

/// A block of keys numbered from `first` on, in the order of `places`.
pub open spec fn block_v(
    kms: Seq<Seq<KeyV>>,
    table: Map<u64, ActionV>,
    layer: int,
    first: int,
    places: Seq<(u64, u64, KeyShape)>,
    attrs: Seq<(Seq<char>, Seq<char>)>,
) -> NodeV {
    el(
        "g"@,
        attrs,
        Seq::new(
            places.len(),
            |k: int| key_node(places[k].0, places[k].1, places[k].2, face_of(key_at(kms, layer, first + k), table)),
        ),
    )
}

/// The left half: keys 0 to 31, and the thumb keys 32 to 37.
pub open spec fn left_v(kms: Seq<Seq<KeyV>>, table: Map<u64, ActionV>, layer: int) -> NodeV {
    el(
        "g"@,
        seq![],
        seq![
            block_v(kms, table, layer, 0, left_main_places(), seq![]),
            block_v(kms, table, layer, 32, left_thumb_places(), seq![("transform"@, "translate(675,325)"@)]),
        ],
    )
}

/// The right half: keys 38 to 69, and the thumb keys 70 to 75.
pub open spec fn right_v(kms: Seq<Seq<KeyV>>, table: Map<u64, ActionV>, layer: int) -> NodeV {
    el(
        "g"@,
        seq![("transform"@, "translate(1000,0)"@)],
        seq![
            block_v(kms, table, layer, 38, right_main_places(), seq![("transform"@, "translate(250,0)"@)]),
            block_v(kms, table, layer, 70, right_thumb_places(), seq![("transform"@, "translate(0,325)"@)]),
        ],
    )
}

/// One layer, hidden until the script shows it.
pub open spec fn layer_v(kms: Seq<Seq<KeyV>>, table: Map<u64, ActionV>, layer: nat) -> NodeV {
    el(
        "g"@,
        seq![("id"@, "layer"@ + dec(layer)), ("visibility"@, "hidden"@)],
        seq![left_v(kms, table, layer as int), right_v(kms, table, layer as int)],
    )
}

/// All layers, in order.
pub open spec fn keymap_v(kms: Seq<Seq<KeyV>>, table: Map<u64, ActionV>) -> NodeV {
    el("g"@, seq![], Seq::new(kms.len(), |l: int| layer_v(kms, table, l as nat)))
}

pub open spec fn stop_v(offset: Seq<char>, color: Seq<char>) -> NodeV {
    el("stop"@, seq![("offset"@, offset), ("stop-color"@, color)], seq![])
}

/// The gradients that the key outlines are filled with.
pub open spec fn defs_v() -> NodeV {
    el(
        "defs"@,
        seq![],
        seq![
            el(
                "linearGradient"@,
                seq![("id"@, "keyoutside"@), ("x1"@, "0%"@), ("x2"@, "0%"@), ("y1"@, "0%"@), ("y2"@, "100%"@)],
                seq![stop_v("0%"@, "#E1E1E1"@), stop_v("100%"@, "#B2B2B2"@)],
            ),
            el(
                "linearGradient"@,
                seq![("id"@, "keyinside"@), ("x1"@, "0%"@), ("x2"@, "100%"@), ("y1"@, "0%"@), ("y2"@, "0%"@)],
                seq![stop_v("0%"@, "#D6D6D6"@), stop_v("50%"@, "#EBEBEB"@), stop_v("100%"@, "#D6D6D6"@)],
            ),
        ],
    )
}

/// The whole picture: the root `svg` element with its view box, the style
/// sheet, the script, the gradients and the layers.
pub open spec fn picture(kms: Seq<Seq<KeyV>>, table: Map<u64, ActionV>, style: Seq<char>, script: Seq<char>) -> NodeV {
    el(
        "svg"@,
        seq![("xmlns"@, "http://www.w3.org/2000/svg"@), ("viewBox"@, "0 0 2000 625"@)],
        seq![text_el("style"@, seq![], style), text_el("script"@, seq![], script), defs_v(), keymap_v(kms, table)],
    )
}

} // verus!
