//! The authentication overlay of the locker.
//!
//! The overlay is a list of layers. Shapes are painted here; a text layer is
//! painted from the glyph pixels its renderer produced for it.

use vstd::prelude::*;

use super::canvas::{blend_pixel, paint, Shape};
use super::identity::Identity;
use crate::text::{joined, split_words, to_upper};

verus! {

/// The width of the canvas the overlay is centered on.
pub const LOCK_CANVAS_WIDTH: u32 = 1280;

/// The height of the canvas the overlay is centered on.
pub const LOCK_CANVAS_HEIGHT: u32 = 800;

/// The width of the overlay.
pub const OVERLAY_WIDTH: u32 = 500;

/// The height of the overlay.
pub const OVERLAY_HEIGHT: u32 = 400;

const AVATAR_X: u32 = 194;

const AVATAR_Y: u32 = 10;

const AVATAR_DIAMETER: u32 = 112;

const FIELD_X: u32 = 55;

const FIELD_Y: u32 = 247;

const FIELD_WIDTH: u32 = 390;

const FIELD_HEIGHT: u32 = 52;

/// The dimensions of the overlay, whatever the wallpaper's.
pub fn authentication_overlay_dimensions() -> (dimensions: (u32, u32))
    ensures
        dimensions == (OVERLAY_WIDTH, OVERLAY_HEIGHT),
{
    (OVERLAY_WIDTH, OVERLAY_HEIGHT)
}

/// Where the overlay starts on the canvas it is centered on.
pub fn overlay_position() -> (position: (u32, u32))
    ensures
        2 * position.0 + OVERLAY_WIDTH == LOCK_CANVAS_WIDTH,
        2 * position.1 + OVERLAY_HEIGHT == LOCK_CANVAS_HEIGHT,
{
    ((LOCK_CANVAS_WIDTH - OVERLAY_WIDTH) / 2, (LOCK_CANVAS_HEIGHT - OVERLAY_HEIGHT) / 2)
}

// ---------------------------------------------------------------------------
// Contents
// ---------------------------------------------------------------------------

/// The first characters of the first two words of a name.
pub open spec fn leading(name: Seq<char>) -> Seq<char> {
    let words = crate::text::words(name);
    Seq::new(
        if words.len() < 2 {
            words.len()
        } else {
            2
        },
        |index: int| words[index][0],
    )
}

/// The first characters of the first two words of a name.
pub fn leading_characters(name: &str) -> (text: String)
    ensures
        text@ == leading(name@),
{
    let words = split_words(name);
    let mut text = String::new();
    let mut index: usize = 0;
    while index < words.len() && index < 2
        invariant
            crate::text::said(words@) == crate::text::words(name@),
            forall|word: int| 0 <= word < words@.len() ==> (#[trigger] words@[word])@.len() > 0,
            index <= 2,
            index <= words@.len(),
            text@ =~= leading(name@).take(index as int),
        decreases words@.len() - index,
    {
        assert(crate::text::said(words@)[index as int] == words@[index as int]@);
        text.push(words[index].as_str().get_char(0));
        index += 1;
    }
    assert(text@ =~= leading(name@));
    text
}

/// The initials of a name, in upper case.
pub fn initials(name: &str) -> (text: String)
    ensures
        text@ == crate::text::uppercased(leading(name@)),
{
    to_upper(leading_characters(name).as_str())
}

/// What the overlay shows.
#[derive(Debug)]
pub struct OverlayView {
    pub initials: String,
    pub display_name: String,
    pub username: String,
    /// Whether the compositor confirmed the lock.
    pub confirmed: bool,
    pub prompt: String,
    /// How many characters were typed. The characters themselves never reach the
    /// renderer, visible answers no more than hidden ones.
    pub typed: usize,
    pub notice: Option<String>,
    pub notice_is_error: bool,
}

impl OverlayView {
    /// Whether the overlay shows this user and this state of the conversation.
    pub open spec fn shows(
        self,
        identity: Identity,
        confirmed: bool,
        prompt: Seq<char>,
        input: Seq<char>,
        notice: Option<Seq<char>>,
        notice_is_error: bool,
    ) -> bool {
        &&& self.initials@ == crate::text::uppercased(leading(identity.display_name@))
        &&& self.display_name@ == identity.display_name@
        &&& self.username@ == identity.username@
        &&& self.confirmed == confirmed
        &&& self.prompt@ == prompt
        &&& self.typed == input.len()
        &&& notice == match self.notice {
            Some(text) => Some(text@),
            None => None,
        }
        &&& self.notice_is_error == notice_is_error
    }

    /// What the overlay shows of a user and of a conversation.
    pub fn of(
        identity: &Identity,
        confirmed: bool,
        prompt: &str,
        input: &str,
        notice: Option<&str>,
        notice_is_error: bool,
    ) -> (view: Self)
        ensures
            view.shows(
                *identity,
                confirmed,
                prompt@,
                input@,
                match notice {
                    Some(text) => Some(text@),
                    None => None,
                },
                notice_is_error,
            ),
    {
        OverlayView {
            initials: initials(identity.display_name.as_str()),
            display_name: identity.display_name.as_str().to_owned(),
            username: identity.username.as_str().to_owned(),
            confirmed,
            prompt: prompt.to_owned(),
            typed: count_typed(input),
            notice: match notice {
                Some(text) => Some(text.to_owned()),
                None => None,
            },
            notice_is_error,
        }
    }
}

/// How many characters were typed.
pub fn count_typed(input: &str) -> (count: usize)
    ensures
        count == input@.len(),
{
    input.unicode_len()
}

/// A color with its opacity.
pub type Paint = [u8; 4];

/// One layer of the overlay.
#[derive(Debug)]
pub enum Layer {
    Shape(Shape, Paint),
    Text(TextLayer),
}

/// A centered line of text.
#[derive(Debug)]
pub struct TextLayer {
    pub text: String,
    /// The size of the font, in pixels.
    pub size: u32,
    pub x: u32,
    pub y: i32,
    pub width: u32,
    pub color: Paint,
}

/// A layer by its contents.
#[verifier::ext_equal]
pub enum LayerModel {
    Shape(Shape, Seq<u8>),
    Text { text: Seq<char>, size: u32, x: u32, y: i32, width: u32, color: Seq<u8> },
}

impl View for Layer {
    type V = LayerModel;

    open spec fn view(&self) -> LayerModel {
        match self {
            Layer::Shape(shape, color) => LayerModel::Shape(*shape, color@),
            Layer::Text(layer) => LayerModel::Text {
                text: layer.text@,
                size: layer.size,
                x: layer.x,
                y: layer.y,
                width: layer.width,
                color: layer.color@,
            },
        }
    }
}

/// The layers by their contents.
pub open spec fn models(layers: Seq<Layer>) -> Seq<LayerModel> {
    layers.map_values(|layer: Layer| layer@)
}

/// A line of text across the overlay with its shadow below it.
pub open spec fn shadowed(text: Seq<char>, size: u32, y: i32, color: Seq<u8>) -> Seq<LayerModel> {
    seq![
        LayerModel::Text {
            text,
            size,
            x: 0,
            y: (y + 2) as i32,
            width: OVERLAY_WIDTH,
            color: seq![0u8, 0u8, 0u8, 190u8],
        },
        LayerModel::Text { text, size, x: 0, y, width: OVERLAY_WIDTH, color },
    ]
}

/// One dot for each typed character.
pub open spec fn dots(count: nat) -> Seq<char> {
    Seq::new(count, |index: int| '•')
}

/// The picture and the names of the user.
pub open spec fn identity_layers(view: OverlayView) -> Seq<LayerModel> {
    let white = seq![255u8, 255u8, 255u8, 255u8];
    seq![
        LayerModel::Shape(
            Shape::Circle { center_x: 250, center_y: 66, radius: 56 },
            seq![255u8, 255u8, 255u8, 90u8],
        ),
        LayerModel::Shape(
            Shape::Circle { center_x: 250, center_y: 66, radius: 53 },
            seq![24u8, 31u8, 46u8, 220u8],
        ),
    ] + shadowed(view.initials@, 34, 43, white) + shadowed(view.display_name@, 27, 139, white)
        + shadowed("@"@ + view.username@, 16, 177, white)
}

/// The field that takes the answer to a prompt.
pub open spec fn field_layers(view: OverlayView) -> Seq<LayerModel> {
    let typed = view.typed > 0;
    seq![
        LayerModel::Shape(
            Shape::RoundedRect { x: 55, y: 247, width: 390, height: 52, radius: 26 },
            seq![255u8, 255u8, 255u8, 105u8],
        ),
        LayerModel::Shape(
            Shape::RoundedRect { x: 56, y: 248, width: 388, height: 50, radius: 25 },
            seq![20u8, 24u8, 34u8, 235u8],
        ),
        LayerModel::Text {
            text: if typed {
                dots(view.typed as nat)
            } else {
                view.prompt@
            },
            size: if typed {
                21
            } else {
                16
            },
            x: 79,
            y: 261,
            width: 308,
            color: if typed {
                seq![255u8, 255u8, 255u8, 255u8]
            } else {
                seq![245u8, 246u8, 250u8, 255u8]
            },
        },
        LayerModel::Shape(
            Shape::Circle { center_x: 419, center_y: 273, radius: 18 },
            seq![255u8, 255u8, 255u8, 235u8],
        ),
        LayerModel::Text {
            text: "→"@,
            size: 20,
            x: 401,
            y: 259,
            width: 36,
            color: seq![28u8, 31u8, 39u8, 255u8],
        },
    ]
}

/// The notice below the field.
pub open spec fn notice_layers(view: OverlayView) -> Seq<LayerModel> {
    match view.notice {
        Some(notice) => shadowed(
            notice@,
            15,
            320,
            if view.notice_is_error {
                seq![255u8, 215u8, 215u8, 255u8]
            } else {
                seq![240u8, 242u8, 248u8, 255u8]
            },
        ),
        None => Seq::empty(),
    }
}

/// The layers of the overlay, from the lowest to the highest.
pub open spec fn layers_of(view: OverlayView) -> Seq<LayerModel> {
    if view.confirmed {
        identity_layers(view) + field_layers(view) + notice_layers(view)
    } else {
        identity_layers(view) + shadowed(
            "Securing session…"@,
            17,
            235,
            seq![255u8, 255u8, 255u8, 255u8],
        )
    }
}

proof fn lemma_models_push(layers: Seq<Layer>, layer: Layer)
    ensures
        models(layers.push(layer)) == models(layers).push(layer@),
{
    assert(models(layers.push(layer)) =~= models(layers).push(layer@));
}

fn push_shape(layers: &mut Vec<Layer>, shape: Shape, color: Paint)
    ensures
        models(final(layers)@) == models(old(layers)@).push(LayerModel::Shape(shape, color@)),
{
    let layer = Layer::Shape(shape, color);
    proof {
        lemma_models_push(layers@, layer);
    }
    layers.push(layer);
}

fn push_text(
    layers: &mut Vec<Layer>,
    text: &str,
    size: u32,
    x: u32,
    y: i32,
    width: u32,
    color: Paint,
)
    ensures
        models(final(layers)@) == models(old(layers)@).push(
            LayerModel::Text { text: text@, size, x, y, width, color: color@ },
        ),
{
    let layer = Layer::Text(TextLayer { text: text.to_owned(), size, x, y, width, color });
    proof {
        lemma_models_push(layers@, layer);
    }
    layers.push(layer);
}

fn push_shadowed(layers: &mut Vec<Layer>, text: &str, size: u32, y: i32, color: Paint)
    requires
        y < 1_000_000,
    ensures
        models(final(layers)@) == models(old(layers)@) + shadowed(text@, size, y, color@),
{
    let shadow: Paint = [0u8, 0u8, 0u8, 190u8];
    assert(shadow@ =~= seq![0u8, 0u8, 0u8, 190u8]);
    push_text(layers, text, size, 0, y + 2, OVERLAY_WIDTH, shadow);
    push_text(layers, text, size, 0, y, OVERLAY_WIDTH, color);
    assert(models(layers@) =~= models(old(layers)@) + shadowed(text@, size, y, color@));
}

fn dotted_text(count: usize) -> (text: String)
    ensures
        text@ == dots(count as nat),
{
    let mut text = String::new();
    let mut index: usize = 0;
    while index < count
        invariant
            index <= count,
            text@ =~= dots(index as nat),
        decreases count - index,
    {
        text.push('•');
        index += 1;
    }
    text
}

fn push_identity(layers: &mut Vec<Layer>, view: &OverlayView)
    ensures
        models(final(layers)@) == models(old(layers)@) + identity_layers(*view),
{
    let white: Paint = [255u8, 255u8, 255u8, 255u8];
    let ring: Paint = [255u8, 255u8, 255u8, 90u8];
    let plate: Paint = [24u8, 31u8, 46u8, 220u8];
    assert(white@ =~= seq![255u8, 255u8, 255u8, 255u8]);
    assert(ring@ =~= seq![255u8, 255u8, 255u8, 90u8]);
    assert(plate@ =~= seq![24u8, 31u8, 46u8, 220u8]);
    let center_x: u32 = AVATAR_X + AVATAR_DIAMETER / 2;
    let center_y: u32 = AVATAR_Y + AVATAR_DIAMETER / 2;
    let radius: u32 = AVATAR_DIAMETER / 2;
    push_shape(layers, Shape::Circle { center_x, center_y, radius }, ring);
    push_shape(layers, Shape::Circle { center_x, center_y, radius: radius - 3 }, plate);
    push_shadowed(layers, view.initials.as_str(), 34, 43, white);
    push_shadowed(layers, view.display_name.as_str(), 27, 139, white);
    let handle = joined("@", view.username.as_str());
    push_shadowed(layers, handle.as_str(), 16, 177, white);
    assert(models(layers@) =~= models(old(layers)@) + identity_layers(*view));
}

fn push_field(layers: &mut Vec<Layer>, view: &OverlayView)
    ensures
        models(final(layers)@) == models(old(layers)@) + field_layers(*view),
{
    let border: Paint = [255u8, 255u8, 255u8, 105u8];
    let ground: Paint = [20u8, 24u8, 34u8, 235u8];
    let faint: Paint = [245u8, 246u8, 250u8, 255u8];
    let white: Paint = [255u8, 255u8, 255u8, 255u8];
    let button: Paint = [255u8, 255u8, 255u8, 235u8];
    let arrow: Paint = [28u8, 31u8, 39u8, 255u8];
    assert(border@ =~= seq![255u8, 255u8, 255u8, 105u8]);
    assert(ground@ =~= seq![20u8, 24u8, 34u8, 235u8]);
    assert(faint@ =~= seq![245u8, 246u8, 250u8, 255u8]);
    assert(white@ =~= seq![255u8, 255u8, 255u8, 255u8]);
    assert(button@ =~= seq![255u8, 255u8, 255u8, 235u8]);
    assert(arrow@ =~= seq![28u8, 31u8, 39u8, 255u8]);
    push_shape(
        layers,
        Shape::RoundedRect {
            x: FIELD_X,
            y: FIELD_Y,
            width: FIELD_WIDTH,
            height: FIELD_HEIGHT,
            radius: FIELD_HEIGHT / 2,
        },
        border,
    );
    push_shape(
        layers,
        Shape::RoundedRect {
            x: FIELD_X + 1,
            y: FIELD_Y + 1,
            width: FIELD_WIDTH - 2,
            height: FIELD_HEIGHT - 2,
            radius: FIELD_HEIGHT / 2 - 1,
        },
        ground,
    );
    if view.typed > 0 {
        let text = dotted_text(view.typed);
        push_text(layers, text.as_str(), 21, FIELD_X + 24, 261, FIELD_WIDTH - 82, white);
    } else {
        push_text(layers, view.prompt.as_str(), 16, FIELD_X + 24, 261, FIELD_WIDTH - 82, faint);
    }
    push_shape(
        layers,
        Shape::Circle { center_x: FIELD_X + 364, center_y: FIELD_Y + 26, radius: 18 },
        button,
    );
    push_text(layers, "→", 20, FIELD_X + 346, 259, 36, arrow);
    assert(models(layers@) =~= models(old(layers)@) + field_layers(*view));
}

fn push_notice(layers: &mut Vec<Layer>, view: &OverlayView)
    ensures
        models(final(layers)@) == models(old(layers)@) + notice_layers(*view),
{
    let error: Paint = [255u8, 215u8, 215u8, 255u8];
    let plain: Paint = [240u8, 242u8, 248u8, 255u8];
    assert(error@ =~= seq![255u8, 215u8, 215u8, 255u8]);
    assert(plain@ =~= seq![240u8, 242u8, 248u8, 255u8]);
    match &view.notice {
        Some(notice) => {
            let color = if view.notice_is_error {
                error
            } else {
                plain
            };
            push_shadowed(layers, notice.as_str(), 15, 320, color);
        },
        None => {},
    }
    assert(models(layers@) =~= models(old(layers)@) + notice_layers(*view));
}

/// The layers of the overlay, from the lowest to the highest.
pub fn overlay_layers(view: &OverlayView) -> (layers: Vec<Layer>)
    ensures
        models(layers@) == layers_of(*view),
{
    let mut layers: Vec<Layer> = Vec::new();
    push_identity(&mut layers, view);
    if !view.confirmed {
        let white: Paint = [255u8, 255u8, 255u8, 255u8];
        assert(white@ =~= seq![255u8, 255u8, 255u8, 255u8]);
        push_shadowed(&mut layers, "Securing session…", 17, 235, white);
        assert(models(layers@) =~= layers_of(*view));
        return layers;
    }
    push_field(&mut layers, view);
    push_notice(&mut layers, view);
    assert(models(layers@) =~= layers_of(*view));
    layers
}

// ---------------------------------------------------------------------------
// Rendering
// ---------------------------------------------------------------------------

/// One pixel of a glyph, relative to its text layer.
#[derive(Clone, Copy, Debug)]
pub struct GlyphPixel {
    pub x: i32,
    pub y: i32,
    pub color: Paint,
}

/// The canvas with the first `count` glyph pixels of a text layer over it.
pub open spec fn lettered(
    pixels: Seq<u8>,
    width: int,
    x: int,
    y: int,
    glyphs: Seq<GlyphPixel>,
    count: int,
) -> Seq<u8>
    decreases count,
{
    if count <= 0 {
        pixels
    } else {
        let glyph = glyphs[count - 1];
        super::canvas::dotted(
            lettered(pixels, width, x, y, glyphs, count - 1),
            width,
            x + glyph.x,
            y + glyph.y,
            glyph.color@,
        )
    }
}

/// Paints the glyph pixels of a text layer.
pub fn draw_glyphs(pixels: &mut [u8], width: u32, x: u32, y: i32, glyphs: &Vec<GlyphPixel>)
    ensures
        final(pixels)@ == lettered(
            old(pixels)@,
            width as int,
            x as int,
            y as int,
            glyphs@,
            glyphs@.len() as int,
        ),
{
    let mut count: usize = 0;
    while count < glyphs.len()
        invariant
            count <= glyphs@.len(),
            pixels@ == lettered(
                old(pixels)@,
                width as int,
                x as int,
                y as int,
                glyphs@,
                count as int,
            ),
        decreases glyphs@.len() - count,
    {
        let glyph = glyphs[count];
        let column: i64 = x as i64 + glyph.x as i64;
        let row: i64 = y as i64 + glyph.y as i64;
        if 0 <= column && column <= 0x7fff_ffff && 0 <= row && row <= 0x7fff_ffff {
            blend_pixel(pixels, width, column as i32, row as i32, glyph.color);
        }
        count += 1;
    }
}

/// The canvas with one layer over it.
pub open spec fn layered(
    pixels: Seq<u8>,
    width: int,
    layer: LayerModel,
    glyphs: Seq<GlyphPixel>,
) -> Seq<u8> {
    match layer {
        LayerModel::Shape(shape, color) => super::canvas::painted(pixels, width, shape, color),
        LayerModel::Text { x, y, .. } => lettered(
            pixels,
            width,
            x as int,
            y as int,
            glyphs,
            glyphs.len() as int,
        ),
    }
}

/// The canvas with the first `count` layers over it.
pub open spec fn rendered(
    pixels: Seq<u8>,
    width: int,
    layers: Seq<LayerModel>,
    glyphs: Seq<Vec<GlyphPixel>>,
    count: int,
) -> Seq<u8>
    decreases count,
{
    if count <= 0 {
        pixels
    } else {
        layered(
            rendered(pixels, width, layers, glyphs, count - 1),
            width,
            layers[count - 1],
            glyphs[count - 1]@,
        )
    }
}

/// Paints the layers of the overlay, given the glyph pixels of each text layer.
/// The entry of a layer that is a shape is not looked at.
pub fn render_authentication_overlay(
    pixels: &mut [u8],
    width: u32,
    layers: &Vec<Layer>,
    glyphs: &Vec<Vec<GlyphPixel>>,
)
    requires
        glyphs@.len() == layers@.len(),
    ensures
        final(pixels)@ == rendered(
            old(pixels)@,
            width as int,
            models(layers@),
            glyphs@,
            layers@.len() as int,
        ),
{
    let mut count: usize = 0;
    while count < layers.len()
        invariant
            glyphs@.len() == layers@.len(),
            count <= layers@.len(),
            pixels@ == rendered(
                old(pixels)@,
                width as int,
                models(layers@),
                glyphs@,
                count as int,
            ),
        decreases layers@.len() - count,
    {
        assert(models(layers@)[count as int] == layers@[count as int]@);
        match &layers[count] {
            Layer::Shape(shape, color) => {
                paint(pixels, width, *shape, *color);
            },
            Layer::Text(layer) => {
                draw_glyphs(pixels, width, layer.x, layer.y, &glyphs[count]);
            },
        }
        count += 1;
    }
}

// ---------------------------------------------------------------------------
// Laws
// ---------------------------------------------------------------------------

/// What was typed never reaches the renderer: of two answers with as many characters,
/// whatever they are, the overlay has the same layers.
pub proof fn law_typed_characters_are_never_drawn(
    view: OverlayView,
    other: OverlayView,
    identity: Identity,
    confirmed: bool,
    prompt: Seq<char>,
    input: Seq<char>,
    other_input: Seq<char>,
    notice: Option<Seq<char>>,
    notice_is_error: bool,
)
    requires
        view.shows(identity, confirmed, prompt, input, notice, notice_is_error),
        other.shows(identity, confirmed, prompt, other_input, notice, notice_is_error),
        input.len() == other_input.len(),
    ensures
        layers_of(view) == layers_of(other),
{
}

/// Before the compositor confirmed the lock there is no field, no prompt, and no
/// notice.
pub proof fn law_nothing_is_asked_before_the_lock(view: OverlayView, other: OverlayView)
    requires
        !view.confirmed,
        !other.confirmed,
        view.initials@ == other.initials@,
        view.display_name@ == other.display_name@,
        view.username@ == other.username@,
    ensures
        layers_of(view) == layers_of(other),
{
}

/// The initials come from the first characters of the first two words, as far as there
/// are any.
pub proof fn law_initials_come_from_the_first_two_words(name: Seq<char>, index: int)
    requires
        0 <= index < leading(name).len(),
    ensures
        leading(name)[index] == crate::text::words(name)[index][0],
        leading(name).len() <= 2,
        leading(name).len() < 2 ==> leading(name).len() == crate::text::words(name).len(),
{
}

/// Every line across the overlay is drawn twice: in black two pixels below, then in its
/// own color.
pub proof fn law_lines_have_a_shadow(text: Seq<char>, size: u32, y: i32, color: Seq<u8>)
    requires
        y < i32::MAX - 2,
    ensures
        ({
            let lines = shadowed(text, size, y, color);
            &&& lines.len() == 2
            &&& (lines[0] matches LayerModel::Text { text: said, size: tall, x, y: at, width, color: shade }
                && said == text && tall == size && x == 0 && at == y + 2 && width == 500 && shade
                == seq![0u8, 0u8, 0u8, 190u8])
            &&& (lines[1] matches LayerModel::Text { text: said, size: tall, x, y: at, width, color: shade }
                && said == text && tall == size && x == 0 && at == y && width == 500 && shade
                == color)
        }),
{
}

/// The overlay says who is locked in: on the picture the initials, below it the name, and
/// below that the user name behind an at sign. Until the lock is confirmed it says so at
/// the end and nothing else.
pub proof fn law_the_overlay_says_who_is_locked_in(view: OverlayView)
    ensures
        ({
            let layers = layers_of(view);
            let white = seq![255u8, 255u8, 255u8, 255u8];
            &&& layers.len() >= 8
            &&& layers[0] == LayerModel::Shape(
                (Shape::Circle { center_x: 250, center_y: 66, radius: 56 }),
                seq![255u8, 255u8, 255u8, 90u8],
            )
            &&& layers[1] == LayerModel::Shape(
                (Shape::Circle { center_x: 250, center_y: 66, radius: 53 }),
                seq![24u8, 31u8, 46u8, 220u8],
            )
            &&& layers.subrange(2, 4) == shadowed(view.initials@, 34, 43, white)
            &&& layers.subrange(4, 6) == shadowed(view.display_name@, 27, 139, white)
            &&& layers.subrange(6, 8) == shadowed(seq!['@'] + view.username@, 16, 177, white)
            &&& !view.confirmed ==> layers.len() == 10 && layers.skip(8) == shadowed(
                "Securing session…"@,
                17,
                235,
                white,
            )
        }),
{
    reveal_strlit("@");
    let layers = layers_of(view);
    let white = seq![255u8, 255u8, 255u8, 255u8];
    assert("@"@ =~= seq!['@']);
    assert(layers.subrange(2, 4) =~= shadowed(view.initials@, 34, 43, white));
    assert(layers.subrange(4, 6) =~= shadowed(view.display_name@, 27, 139, white));
    assert(layers.subrange(6, 8) =~= shadowed(seq!['@'] + view.username@, 16, 177, white));
    if !view.confirmed {
        assert(layers.skip(8) =~= shadowed("Securing session…"@, 17, 235, white));
    }
}

/// Once the lock is confirmed there is a field that shows one dot for each typed
/// character, and the prompt while nothing is typed. The field fits its border by a
/// pixel, and the button lies on it to the right of the text.
pub proof fn law_the_field_shows_dots_or_the_prompt(view: OverlayView, index: int)
    requires
        view.confirmed,
    ensures
        ({
            let layers = layers_of(view);
            &&& layers.len() >= 13
            &&& layers[8] == LayerModel::Shape(
                (Shape::RoundedRect { x: 55, y: 247, width: 390, height: 52, radius: 26 }),
                seq![255u8, 255u8, 255u8, 105u8],
            )
            &&& layers[9] == LayerModel::Shape(
                (Shape::RoundedRect { x: 56, y: 248, width: 388, height: 50, radius: 25 }),
                seq![20u8, 24u8, 34u8, 235u8],
            )
            &&& layers[11] == LayerModel::Shape(
                (Shape::Circle { center_x: 419, center_y: 273, radius: 18 }),
                seq![255u8, 255u8, 255u8, 235u8],
            )
            &&& (layers[10] matches LayerModel::Text { text, size, x, y, width, color } && {
                &&& x == 79 && y == 261 && width == 308
                &&& view.typed == 0 ==> text == view.prompt@ && size == 16 && color == seq![
                    245u8,
                    246u8,
                    250u8,
                    255u8,
                ]
                &&& view.typed > 0 ==> text.len() == view.typed && size == 21 && color == seq![
                    255u8,
                    255u8,
                    255u8,
                    255u8,
                ]
                &&& view.typed > 0 && 0 <= index < text.len() ==> text[index] == '•'
            })
            &&& (layers[12] matches LayerModel::Text { text, x, width, .. } && text == "→"@ && x
                == 401 && width == 36)
            &&& view.notice is None ==> layers.len() == 13
        }),
{
}

/// A notice stands below the field, reddish where it is an error.
pub proof fn law_notices_stand_below_the_field(view: OverlayView, notice: Seq<char>)
    requires
        view.confirmed,
        view.notice matches Some(text) && text@ == notice,
    ensures
        layers_of(view).len() == 15,
        layers_of(view).skip(13) == shadowed(
            notice,
            15,
            320,
            if view.notice_is_error {
                seq![255u8, 215u8, 215u8, 255u8]
            } else {
                seq![240u8, 242u8, 248u8, 255u8]
            },
        ),
{
    assert(layers_of(view).skip(13) =~= notice_layers(view));
}

/// The glyphs of a text are drawn one after the other, each where the text starts and it
/// lies in it.
pub proof fn law_glyphs_are_drawn_one_by_one(
    pixels: Seq<u8>,
    width: int,
    x: int,
    y: int,
    first: Seq<GlyphPixel>,
    second: Seq<GlyphPixel>,
    glyph: GlyphPixel,
)
    ensures
        lettered(pixels, width, x, y, first + second, (first + second).len() as int) == lettered(
            lettered(pixels, width, x, y, first, first.len() as int),
            width,
            x,
            y,
            second,
            second.len() as int,
        ),
        lettered(pixels, width, x, y, seq![glyph], 1) == super::canvas::dotted(
            pixels,
            width,
            x + glyph.x,
            y + glyph.y,
            glyph.color@,
        ),
    decreases second.len(),
{
    reveal_with_fuel(lettered, 3);
    if second.len() == 0 {
        assert(first + second =~= first);
    } else {
        let shorter = second.drop_last();
        law_glyphs_are_drawn_one_by_one(pixels, width, x, y, first, shorter, glyph);
        lemma_lettered(
            pixels,
            width,
            x,
            y,
            first + second,
            first + shorter,
            (first + shorter).len() as int,
        );
        let between = lettered(pixels, width, x, y, first, first.len() as int);
        lemma_lettered(between, width, x, y, second, shorter, shorter.len() as int);
        assert((first + second)[(first + second).len() - 1] == second[second.len() - 1]);
    }
}

proof fn lemma_lettered(
    pixels: Seq<u8>,
    width: int,
    x: int,
    y: int,
    left: Seq<GlyphPixel>,
    right: Seq<GlyphPixel>,
    count: int,
)
    requires
        count <= left.len(),
        count <= right.len(),
        forall|index: int| 0 <= index < count ==> left[index] == #[trigger] right[index],
    ensures
        lettered(pixels, width, x, y, left, count) == lettered(pixels, width, x, y, right, count),
    decreases count,
{
    if count > 0 {
        lemma_lettered(pixels, width, x, y, left, right, count - 1);
        assert(left[count - 1] == right[count - 1]);
    }
}

/// The layers of an overlay are drawn one over the other, shapes by their outline and
/// texts by their glyphs from where they start.
pub proof fn law_layers_are_drawn_one_over_the_other(
    pixels: Seq<u8>,
    width: int,
    layers: Seq<LayerModel>,
    glyphs: Seq<Vec<GlyphPixel>>,
    count: int,
)
    requires
        0 < count <= layers.len(),
        layers.len() == glyphs.len(),
    ensures
        rendered(pixels, width, layers, glyphs, 0) == pixels,
        ({
            let below = rendered(pixels, width, layers, glyphs, count - 1);
            let above = rendered(pixels, width, layers, glyphs, count);
            &&& (layers[count - 1] matches LayerModel::Shape(shape, color) ==> above
                == super::canvas::painted(below, width, shape, color))
            &&& (layers[count - 1] matches LayerModel::Text { x, y, .. } ==> above == lettered(
                below,
                width,
                x as int,
                y as int,
                glyphs[count - 1]@,
                glyphs[count - 1]@.len() as int,
            ))
        }),
{
}

} // verus!
