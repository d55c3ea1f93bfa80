//! The picture of a keyboard: every layer drawn as the two halves of an
//! ErgoDox, with one outlined key per position, its legends, and the handlers
//! that let a viewer switch layers. Only one layer is visible at a time.
//!
//! The picture is built as an element tree whose value each function states
//! exactly (see `picture`); the `svg` crate prints it.

use crate::face::{face_of, key_face, KeyFace, Press};
use crate::grammar::document as source_document;
use crate::label::textoutput;
use crate::lexer::chars_of;
use crate::parser::parse_string;
use crate::picture::{
    block_v, call_text, caption_nodes, caption_texts, dec, defs_v, el, id_attr, key_node,
    keymap_v, layer_v, left_main_places, left_thumb_places, left_v, outline, picture, press_attrs,
    rect_v, right_main_places, right_thumb_places, right_v, stop_v, text_el, translate_text,
};
use crate::svgnode::{attrs_view, lemma_nodes_push, node_view, nodes_view, serialize, svg_text, texts_view, Node, NodeV};
use crate::text::{decimal_digits, decimal_string, push_decimal};
use crate::types::{actions_view, keymaps_view, ActionMap, ActionV, Key, KeyMapVec, KeyV, ParseError};
use vstd::prelude::*;
use vstd::string::StringSliceAdditionalSpecFns;

verus! {

/// The outline of a key, in hundredths of a key width.
#[derive(Debug, Clone, Copy, PartialEq, Eq, Structural)]
pub enum KeyShape {
    /// One unit square.
    K10u,
    /// One and a half units wide.
    K15h,
    /// Two units tall.
    K20v,
    /// One and a half units tall.
    K15v,
}

impl KeyShape {
    /// Width and height.
    pub open spec fn size_spec(self) -> (u64, u64) {
        match self {
            KeyShape::K10u => (100, 100),
            KeyShape::K15h => (150, 100),
            KeyShape::K15v => (100, 150),
            KeyShape::K20v => (100, 200),
        }
    }

    /// Width and height.
    pub fn size(&self) -> (r: (u64, u64))
        ensures
            r == self.size_spec(),
    {
        match self {
            KeyShape::K10u => (100, 100),
            KeyShape::K15h => (150, 100),
            KeyShape::K15v => (100, 150),
            KeyShape::K20v => (100, 200),
        }
    }
}

/// A parsed layout, ready to be drawn.
pub struct Keyboard {
    keymaps: KeyMapVec,
    actions: ActionMap,
}

/// The key at position `keyn` of layer `layer`, if the layer has one there.
pub open spec fn key_at(kms: Seq<Seq<KeyV>>, layer: int, keyn: int) -> Option<KeyV> {
    if 0 <= layer < kms.len() && 0 <= keyn < kms[layer].len() {
        Some(kms[layer][keyn])
    } else {
        None
    }
}

impl View for Keyboard {
    type V = (Seq<Seq<KeyV>>, Map<u64, ActionV>);

    closed spec fn view(&self) -> (Seq<Seq<KeyV>>, Map<u64, ActionV>) {
        (keymaps_view(self.keymaps), actions_view(self.actions))
    }
}

/// Positions of the keys of one block, in key order: left edge, top edge, outline.
type Places = Vec<(u64, u64, KeyShape)>;

fn left_main_places_exec() -> (r: Places)
    ensures
        r@ == left_main_places(),
{
    let r = vec![
            (0, 0, KeyShape::K15h), (150, 0, KeyShape::K10u), (250, 0, KeyShape::K10u),
            (350, 0, KeyShape::K10u), (450, 0, KeyShape::K10u), (550, 0, KeyShape::K10u),
            (650, 0, KeyShape::K10u),
            (0, 100, KeyShape::K15h), (150, 100, KeyShape::K10u), (250, 100, KeyShape::K10u),
            (350, 100, KeyShape::K10u), (450, 100, KeyShape::K10u), (550, 100, KeyShape::K10u),
            (650, 100, KeyShape::K15v),
            (0, 200, KeyShape::K15h), (150, 200, KeyShape::K10u), (250, 200, KeyShape::K10u),
            (350, 200, KeyShape::K10u), (450, 200, KeyShape::K10u), (550, 200, KeyShape::K10u),
            (0, 300, KeyShape::K15h), (150, 300, KeyShape::K10u), (250, 300, KeyShape::K10u),
            (350, 300, KeyShape::K10u), (450, 300, KeyShape::K10u), (550, 300, KeyShape::K10u),
            (650, 250, KeyShape::K15v),
            (50, 400, KeyShape::K10u), (150, 400, KeyShape::K10u), (250, 400, KeyShape::K10u),
            (350, 400, KeyShape::K10u), (450, 400, KeyShape::K10u),
        ];
    r
}

fn left_thumb_places_exec() -> (r: Places)
    ensures
        r@ == left_thumb_places(),
{
    let r = vec![
            (100, 0, KeyShape::K10u), (200, 0, KeyShape::K10u), (200, 100, KeyShape::K10u),
            (0, 100, KeyShape::K20v), (100, 100, KeyShape::K20v), (200, 200, KeyShape::K10u),
        ];
    r
}

fn right_main_places_exec() -> (r: Places)
    ensures
        r@ == right_main_places(),
{
    let r = vec![
            (0, 0, KeyShape::K10u), (100, 0, KeyShape::K10u), (200, 0, KeyShape::K10u),
            (300, 0, KeyShape::K10u), (400, 0, KeyShape::K10u), (500, 0, KeyShape::K10u),
            (600, 0, KeyShape::K15h),
            (0, 100, KeyShape::K15v), (100, 100, KeyShape::K10u), (200, 100, KeyShape::K10u),
            (300, 100, KeyShape::K10u), (400, 100, KeyShape::K10u), (500, 100, KeyShape::K10u),
            (600, 100, KeyShape::K15h),
            (100, 200, KeyShape::K10u), (200, 200, KeyShape::K10u), (300, 200, KeyShape::K10u),
            (400, 200, KeyShape::K10u), (500, 200, KeyShape::K10u), (600, 200, KeyShape::K15h),
            (0, 250, KeyShape::K15v), (100, 300, KeyShape::K10u), (200, 300, KeyShape::K10u),
            (300, 300, KeyShape::K10u), (400, 300, KeyShape::K10u), (500, 300, KeyShape::K10u),
            (600, 300, KeyShape::K15h),
            (200, 400, KeyShape::K10u), (300, 400, KeyShape::K10u), (400, 400, KeyShape::K10u),
            (500, 400, KeyShape::K10u), (600, 400, KeyShape::K10u),
        ];
    r
}

fn right_thumb_places_exec() -> (r: Places)
    ensures
        r@ == right_thumb_places(),
{
    let r = vec![
            (0, 0, KeyShape::K10u), (100, 0, KeyShape::K10u), (0, 100, KeyShape::K10u),
            (0, 200, KeyShape::K10u), (100, 100, KeyShape::K20v), (200, 100, KeyShape::K20v),
        ];
    r
}

/// A string with the contents of `s`.
fn lit(s: &str) -> (r: String)
    ensures
        r@ == s@,
{
    String::from_str(s)
}

/// An attribute.
fn attr(name: &str, value: String) -> (r: (String, String))
    ensures
        r.0@ == name@,
        r.1@ == value@,
{
    (String::from_str(name), value)
}

/// An element with attributes and child elements.
fn element(tag: &str, attrs: Vec<(String, String)>, children: Vec<Node>) -> (r: Node)
    ensures
        r@ == el(tag@, attrs_view(attrs@), nodes_view(children@)),
{
    let texts: Vec<String> = Vec::new();
    let r = Node { tag: String::from_str(tag), attrs, texts, children };
    proof {
        assert(texts_view(texts@) =~= seq![]);
    }
    r
}

/// An element that holds one text.
fn text_element(tag: &str, attrs: Vec<(String, String)>, text: String) -> (r: Node)
    ensures
        r@ == text_el(tag@, attrs_view(attrs@), text@),
{
    let texts = vec![text];
    let children: Vec<Node> = Vec::new();
    let r = Node { tag: String::from_str(tag), attrs, texts, children };
    proof {
        assert(texts_view(texts@) =~= seq![text@]);
        assert(nodes_view(children@) =~= seq![]);
    }
    r
}

/// `name(n)`
fn handler_call(name: &str, n: u64) -> (r: String)
    ensures
        r@ == call_text(name@, n as nat),
{
    let mut out = String::from_str(name);
    out.append("(");
    push_decimal(&mut out, n);
    out.append(")");
    out
}

/// `translate(x,y)`
fn translate(x: u64, y: u64) -> (r: String)
    ensures
        r@ == translate_text(x as nat, y as nat),
{
    let mut out = String::from_str("translate(");
    push_decimal(&mut out, x);
    out.append(",");
    push_decimal(&mut out, y);
    out.append(")");
    out
}

fn rectangle(x: u64, y: u64, w: u64, h: u64, r: u64, stroke: &str, fill: &str) -> (n: Node)
    ensures
        n@ == rect_v(x as nat, y as nat, w as nat, h as nat, r as nat, stroke@, fill@),
{
    let attrs = vec![
        attr("x", decimal_string(x)),
        attr("y", decimal_string(y)),
        attr("width", decimal_string(w)),
        attr("height", decimal_string(h)),
        attr("rx", decimal_string(r)),
        attr("ry", decimal_string(r)),
        attr("stroke", lit(stroke)),
        attr("fill", lit(fill)),
    ];
    let n = element("rect", attrs, Vec::new());
    proof {
        assert(nodes_view(Seq::<Node>::empty()) =~= seq![]);
        assert(attrs_view(attrs@) =~= seq![
            ("x"@, dec(x as nat)),
            ("y"@, dec(y as nat)),
            ("width"@, dec(w as nat)),
            ("height"@, dec(h as nat)),
            ("rx"@, dec(r as nat)),
            ("ry"@, dec(r as nat)),
            ("stroke"@, stroke@),
            ("fill"@, fill@),
        ]);
    }
    n
}

/// Appends `n` to `children`.
fn push_node(children: &mut Vec<Node>, n: Node)
    ensures
        nodes_view(final(children)@) == nodes_view(old(children)@).push(n@),
{
    proof {
        lemma_nodes_push(old(children)@, n);
    }
    children.push(n);
}

/// The outline of a key of width `w` and height `h`: a white backing, the
/// outer edge and the inner face.
fn drawkey(w: u64, h: u64) -> (r: Node)
    requires
        w >= 20,
        h >= 20,
    ensures
        r@ == outline(w as nat, h as nat),
{
    let mut rects: Vec<Node> = Vec::new();
    proof {
        assert(nodes_view(rects@) =~= seq![]);
    }
    push_node(&mut rects, rectangle(1, 1, w - 2, h - 2, 15, "white", "white"));
    push_node(&mut rects, rectangle(1, 1, w - 2, h - 2, 15, "#A5A5A5", "url(#keyoutside)"));
    push_node(&mut rects, rectangle(10, 7, w - 20, h - 20, 10, "#F9F9F9", "url(#keyinside)"));
    let r = element("g", Vec::new(), rects);
    proof {
        assert(attrs_view(Seq::<(String, String)>::empty()) =~= seq![]);
        assert(nodes_view(rects@) =~= outline(w as nat, h as nat).children);
    }
    r
}

/// The two texts of the caption `name` at height `y`: its shifted legend
/// above, its normal legend below.
fn add_caption(children: &mut Vec<Node>, name: &str, y: u64)
    requires
        y <= 50,
    ensures
        nodes_view(final(children)@) == nodes_view(old(children)@) + caption_texts((name@, y)),
{
    let (normal, shifted) = textoutput(name);
    let upper = text_element(
        "text",
        vec![attr("x", decimal_string(50)), attr("y", decimal_string(y)), attr("class", lit("shifted"))],
        shifted,
    );
    let lower = text_element(
        "text",
        vec![
            attr("x", decimal_string(50)),
            attr("y", decimal_string(y + 25)),
            attr("id", lit(name)),
            attr("class", lit("normal")),
        ],
        normal,
    );
    let ghost before = nodes_view(children@);
    let ghost c = (name@, y);
    proof {
        assert(upper@ == caption_texts(c)[0]) by {
            assert(upper@.attrs =~= caption_texts(c)[0].attrs);
        }
        assert(lower@ == caption_texts(c)[1]) by {
            assert(lower@.attrs =~= caption_texts(c)[1].attrs);
        }
    }
    push_node(children, upper);
    push_node(children, lower);
    proof {
        assert(nodes_view(children@) =~= before + caption_texts(c));
    }
}

/// The group attributes of a key: where it stands, its handlers, its name.
fn key_attrs(x: u64, y: u64, face: &KeyFace) -> (r: Vec<(String, String)>)
    ensures
        attrs_view(r@) == seq![("transform"@, translate_text(x as nat, y as nat))] + press_attrs(face@.0)
            + id_attr(face@.1),
{
    let mut attrs: Vec<(String, String)> = Vec::new();
    attrs.push(attr("transform", translate(x, y)));
    let ghost t = seq![("transform"@, translate_text(x as nat, y as nat))];
    proof {
        assert(attrs_view(attrs@) =~= t);
    }
    match face.press {
        Press::Plain => {
            proof {
                assert(t + press_attrs(face@.0) =~= t);
            }
        },
        Press::OnlyLayer(l) => {
            attrs.push(attr("onclick", handler_call("onlylayer", l)));
            proof {
                assert(attrs_view(attrs@) =~= t + press_attrs(face@.0));
            }
        },
        Press::Momentary(l) => {
            attrs.push(attr("onmousedown", handler_call("templayeron", l)));
            attrs.push(attr("onmouseup", handler_call("templayeroff", l)));
            proof {
                assert(attrs_view(attrs@) =~= t + press_attrs(face@.0));
            }
        },
    }
    let ghost before = attrs_view(attrs@);
    let n = face.captions.len();
    if n > 0 {
        let last = &face.captions[n - 1];
        attrs.push(attr("id", last.text.clone()));
        proof {
            assert(face@.1.last() == last@);
            assert(attrs_view(attrs@) =~= before + id_attr(face@.1));
        }
    } else {
        proof {
            assert(before + id_attr(face@.1) =~= before);
        }
    }
    attrs
}

impl Keyboard {
    /// A keyboard with the given layers and action table.
    pub fn new(keymaps: KeyMapVec, actions: ActionMap) -> (r: Keyboard)
        ensures
            r@ == (keymaps_view(keymaps), actions_view(actions)),
    {
        Keyboard { keymaps, actions }
    }

    /// What is drawn on key `keyn` of layer `layer`.
    pub fn face(&self, layer: usize, keyn: usize) -> (r: KeyFace)
        ensures
            r@ == face_of(key_at(self@.0, layer as int, keyn as int), self@.1),
            forall|i: int| 0 <= i < r@.1.len() ==> #[trigger] r@.1[i].1 <= 50,
    {
        let key: Option<&Key> = if layer < self.keymaps.len() && keyn < self.keymaps[layer].len() {
            Some(&self.keymaps[layer][keyn])
        } else {
            None
        };
        proof {
            if layer < self.keymaps.len() {
                assert(keymaps_view(self.keymaps)[layer as int] == crate::types::keymap_view(
                    self.keymaps@[layer as int],
                ));
            }
        }
        key_face(key, &self.actions)
    }

    /// One key: its outline at `(x, y)`, its handlers and its captions.
    fn keynode(&self, x: u64, y: u64, layer: usize, keyn: usize, shape: KeyShape) -> (r: Node)
        ensures
            r@ == key_node(x, y, shape, face_of(key_at(self@.0, layer as int, keyn as int), self@.1)),
    {
        let (w, h) = shape.size();
        let face = self.face(layer, keyn);
        let outline_node = drawkey(w, h);
        let mut children = outline_node.children;
        let ghost rects = nodes_view(children@);
        proof {
            assert(rects == outline(w as nat, h as nat).children);
            assert(caption_nodes(face@.1.subrange(0, 0)) =~= seq![]) by {
                assert(face@.1.subrange(0, 0).len() == 0);
            }
            assert(rects + caption_nodes(face@.1.subrange(0, 0)) =~= rects);
        }
        let mut i: usize = 0;
        while i < face.captions.len()
            invariant
                i <= face@.1.len(),
                forall|j: int| 0 <= j < face@.1.len() ==> #[trigger] face@.1[j].1 <= 50,
                nodes_view(children@) == rects + caption_nodes(face@.1.subrange(0, i as int)),
            decreases face.captions@.len() - i,
        {
            let c = &face.captions[i];
            proof {
                assert(face@.1[i as int] == c@);
                assert(face@.1[i as int].1 <= 50);
            }
            let ghost before = nodes_view(children@);
            add_caption(&mut children, c.text.as_str(), c.y);
            proof {
                let s = face@.1.subrange(0, i + 1);
                assert(s.drop_last() =~= face@.1.subrange(0, i as int));
                assert(s.last() == c@);
                assert(nodes_view(children@) =~= rects + caption_nodes(s));
            }
            i = i + 1;
        }
        let attrs = key_attrs(x, y, &face);
        let r = element("g", attrs, children);
        proof {
            assert(face@.1.subrange(0, face@.1.len() as int) =~= face@.1);
        }
        r
    }

    /// A block of keys, numbered from `first` on in the order of `places`.
    fn block(&self, layer: usize, first: usize, places: Places, attrs: Vec<(String, String)>) -> (r: Node)
        requires
            first <= 100,
            places@.len() <= 100,
        ensures
            r@ == block_v(self@.0, self@.1, layer as int, first as int, places@, attrs_view(attrs@)),
    {
        let mut keys: Vec<Node> = Vec::new();
        let ghost spec_keys = block_v(self@.0, self@.1, layer as int, first as int, places@, attrs_view(attrs@)).children;
        proof {
            assert(nodes_view(keys@) =~= spec_keys.subrange(0, 0));
        }
        let mut k: usize = 0;
        while k < places.len()
            invariant
                first <= 100,
                places@.len() <= 100,
                k <= places@.len(),
                spec_keys == block_v(self@.0, self@.1, layer as int, first as int, places@, attrs_view(attrs@)).children,
                nodes_view(keys@) == spec_keys.subrange(0, k as int),
            decreases places@.len() - k,
        {
            let (x, y, shape) = places[k];
            let n = self.keynode(x, y, layer, first + k, shape);
            push_node(&mut keys, n);
            proof {
                assert(spec_keys.subrange(0, k + 1) =~= spec_keys.subrange(0, k as int).push(spec_keys[k as int]));
            }
            k = k + 1;
        }
        proof {
            assert(spec_keys.subrange(0, k as int) =~= spec_keys);
        }
        element("g", attrs, keys)
    }

    fn leftmain(&self, layer: usize) -> (r: Node)
        ensures
            r@ == block_v(self@.0, self@.1, layer as int, 0, left_main_places(), seq![]),
    {
        let r = self.block(layer, 0, left_main_places_exec(), Vec::new());
        proof {
            assert(attrs_view(Seq::<(String, String)>::empty()) =~= seq![]);
        }
        r
    }

    fn leftthumb(&self, layer: usize) -> (r: Node)
        ensures
            r@ == block_v(self@.0, self@.1, layer as int, 32, left_thumb_places(), seq![("transform"@, "translate(675,325)"@)]),
    {
        let attrs = vec![attr("transform", lit("translate(675,325)"))];
        let r = self.block(layer, 32, left_thumb_places_exec(), attrs);
        proof {
            assert(attrs_view(attrs@) =~= seq![("transform"@, "translate(675,325)"@)]);
        }
        r
    }

    fn rightmain(&self, layer: usize) -> (r: Node)
        ensures
            r@ == block_v(self@.0, self@.1, layer as int, 38, right_main_places(), seq![("transform"@, "translate(250,0)"@)]),
    {
        let attrs = vec![attr("transform", lit("translate(250,0)"))];
        let r = self.block(layer, 38, right_main_places_exec(), attrs);
        proof {
            assert(attrs_view(attrs@) =~= seq![("transform"@, "translate(250,0)"@)]);
        }
        r
    }

    fn rightthumb(&self, layer: usize) -> (r: Node)
        ensures
            r@ == block_v(self@.0, self@.1, layer as int, 70, right_thumb_places(), seq![("transform"@, "translate(0,325)"@)]),
    {
        let attrs = vec![attr("transform", lit("translate(0,325)"))];
        let r = self.block(layer, 70, right_thumb_places_exec(), attrs);
        proof {
            assert(attrs_view(attrs@) =~= seq![("transform"@, "translate(0,325)"@)]);
        }
        r
    }

    fn left(&self, layer: usize) -> (r: Node)
        ensures
            r@ == left_v(self@.0, self@.1, layer as int),
    {
        let mut parts: Vec<Node> = Vec::new();
        proof {
            assert(nodes_view(parts@) =~= seq![]);
        }
        push_node(&mut parts, self.leftmain(layer));
        push_node(&mut parts, self.leftthumb(layer));
        let r = element("g", Vec::new(), parts);
        proof {
            assert(attrs_view(Seq::<(String, String)>::empty()) =~= seq![]);
            assert(nodes_view(parts@) =~= left_v(self@.0, self@.1, layer as int).children);
        }
        r
    }

    fn right(&self, layer: usize) -> (r: Node)
        ensures
            r@ == right_v(self@.0, self@.1, layer as int),
    {
        let mut parts: Vec<Node> = Vec::new();
        proof {
            assert(nodes_view(parts@) =~= seq![]);
        }
        push_node(&mut parts, self.rightmain(layer));
        push_node(&mut parts, self.rightthumb(layer));
        let attrs = vec![attr("transform", lit("translate(1000,0)"))];
        let r = element("g", attrs, parts);
        proof {
            assert(attrs_view(attrs@) =~= seq![("transform"@, "translate(1000,0)"@)]);
            assert(nodes_view(parts@) =~= right_v(self@.0, self@.1, layer as int).children);
        }
        r
    }

    /// One layer, hidden until the script shows it.
    fn layer(&self, layer: usize) -> (r: Node)
        ensures
            r@ == layer_v(self@.0, self@.1, layer as nat),
    {
        let mut halves: Vec<Node> = Vec::new();
        proof {
            assert(nodes_view(halves@) =~= seq![]);
        }
        push_node(&mut halves, self.left(layer));
        push_node(&mut halves, self.right(layer));
        let mut id = String::from_str("layer");
        push_decimal(&mut id, layer as u64);
        let attrs = vec![attr("id", id), attr("visibility", lit("hidden"))];
        let r = element("g", attrs, halves);
        proof {
            assert(attrs_view(attrs@) =~= seq![("id"@, "layer"@ + dec(layer as nat)), ("visibility"@, "hidden"@)]);
            assert(nodes_view(halves@) =~= layer_v(self@.0, self@.1, layer as nat).children);
        }
        r
    }

    /// All layers.
    fn keymap(&self) -> (r: Node)
        ensures
            r@ == keymap_v(self@.0, self@.1),
    {
        let mut layers: Vec<Node> = Vec::new();
        let ghost spec_layers = keymap_v(self@.0, self@.1).children;
        proof {
            assert(nodes_view(layers@) =~= spec_layers.subrange(0, 0));
            assert(self@.0.len() == self.keymaps@.len());
        }
        let mut i: usize = 0;
        while i < self.keymaps.len()
            invariant
                i <= self.keymaps@.len(),
                self@.0.len() == self.keymaps@.len(),
                spec_layers == keymap_v(self@.0, self@.1).children,
                nodes_view(layers@) == spec_layers.subrange(0, i as int),
            decreases self.keymaps@.len() - i,
        {
            push_node(&mut layers, self.layer(i));
            proof {
                assert(spec_layers.subrange(0, i + 1) =~= spec_layers.subrange(0, i as int).push(spec_layers[i as int]));
            }
            i = i + 1;
        }
        proof {
            assert(spec_layers.subrange(0, i as int) =~= spec_layers);
            assert(attrs_view(Seq::<(String, String)>::empty()) =~= seq![]);
        }
        element("g", Vec::new(), layers)
    }

    /// The picture as an element tree, with the given style sheet and script.
    pub fn tree(&self, style: &str, script: &str) -> (r: Node)
        ensures
            r@ == picture(self@.0, self@.1, style@, script@),
    {
        let mut parts: Vec<Node> = Vec::new();
        proof {
            assert(nodes_view(parts@) =~= seq![]);
            assert(attrs_view(Seq::<(String, String)>::empty()) =~= seq![]);
        }
        push_node(&mut parts, text_element("style", Vec::new(), lit(style)));
        push_node(&mut parts, text_element("script", Vec::new(), lit(script)));
        push_node(&mut parts, gradients());
        push_node(&mut parts, self.keymap());
        let attrs = vec![attr("xmlns", lit("http://www.w3.org/2000/svg")), attr("viewBox", lit("0 0 2000 625"))];
        let r = element("svg", attrs, parts);
        proof {
            assert(attrs_view(attrs@) =~= seq![("xmlns"@, "http://www.w3.org/2000/svg"@), ("viewBox"@, "0 0 2000 625"@)]);
            assert(nodes_view(parts@) =~= picture(self@.0, self@.1, style@, script@).children);
        }
        r
    }

    /// The picture as an SVG document, with the given style sheet and script
    /// embedded.
    pub fn svg_with(&self, style: &str, script: &str) -> (r: String)
        ensures
            r@ == svg_text(picture(self@.0, self@.1, style@, script@)),
    {
        serialize(&self.tree(style, script))
    }

    /// The picture as an SVG document, with an empty style sheet and script.
    pub fn svg(&self) -> (r: String)
        ensures
            r@ == svg_text(picture(self@.0, self@.1, seq![], seq![])),
    {
        let empty = "";
        proof {
            reveal_strlit("");
            assert(empty@ =~= Seq::<char>::empty());
        }
        self.svg_with(empty, empty)
    }
}

/// A stop of a gradient.
fn stop(offset: &str, color: &str) -> (r: Node)
    ensures
        r@ == stop_v(offset@, color@),
{
    let attrs = vec![attr("offset", lit(offset)), attr("stop-color", lit(color))];
    let r = element("stop", attrs, Vec::new());
    proof {
        assert(attrs_view(attrs@) =~= seq![("offset"@, offset@), ("stop-color"@, color@)]);
        assert(nodes_view(Seq::<Node>::empty()) =~= seq![]);
    }
    r
}

/// The gradients that the key outlines are filled with.
fn gradients() -> (r: Node)
    ensures
        r@ == defs_v(),
{
    let mut outside_stops: Vec<Node> = Vec::new();
    proof {
        assert(nodes_view(outside_stops@) =~= seq![]);
    }
    push_node(&mut outside_stops, stop("0%", "#E1E1E1"));
    push_node(&mut outside_stops, stop("100%", "#B2B2B2"));
    let outside_attrs = vec![
        attr("id", lit("keyoutside")),
        attr("x1", lit("0%")),
        attr("x2", lit("0%")),
        attr("y1", lit("0%")),
        attr("y2", lit("100%")),
    ];
    let outside = element("linearGradient", outside_attrs, outside_stops);
    let mut inside_stops: Vec<Node> = Vec::new();
    proof {
        assert(nodes_view(inside_stops@) =~= seq![]);
    }
    push_node(&mut inside_stops, stop("0%", "#D6D6D6"));
    push_node(&mut inside_stops, stop("50%", "#EBEBEB"));
    push_node(&mut inside_stops, stop("100%", "#D6D6D6"));
    let inside_attrs = vec![
        attr("id", lit("keyinside")),
        attr("x1", lit("0%")),
        attr("x2", lit("100%")),
        attr("y1", lit("0%")),
        attr("y2", lit("0%")),
    ];
    let inside = element("linearGradient", inside_attrs, inside_stops);
    let mut gradients: Vec<Node> = Vec::new();
    proof {
        assert(nodes_view(gradients@) =~= seq![]);
    }
    push_node(&mut gradients, outside);
    push_node(&mut gradients, inside);
    let r = element("defs", Vec::new(), gradients);
    proof {
        assert(attrs_view(outside_attrs@) =~= defs_v().children[0].attrs);
        assert(nodes_view(outside_stops@) =~= defs_v().children[0].children);
        assert(attrs_view(inside_attrs@) =~= defs_v().children[1].attrs);
        assert(nodes_view(inside_stops@) =~= defs_v().children[1].children);
        assert(attrs_view(Seq::<(String, String)>::empty()) =~= seq![]);
        assert(nodes_view(gradients@) =~= defs_v().children);
    }
    r
}

/// Parses a firmware source and draws its layout: the picture of the parsed
/// layers and table, with an empty style sheet and script. Fails exactly when
/// the parse fails.
pub fn to_svg(input: &str) -> (r: Result<String, ParseError>)
    ensures
        match source_document(input.spec_bytes()) {
            Ok((kms, table)) => match r {
                Ok(s) => s@ == svg_text(picture(kms, table, seq![], seq![])),
                Err(_) => false,
            },
            Err(e) => r == Err::<String, ParseError>(e),
        },
{
    let (kms, am) = parse_string(input)?;
    Ok(Keyboard::new(kms, am).svg())
}

} // verus!
