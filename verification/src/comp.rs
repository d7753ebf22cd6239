//! What is on screen and who is listened to: outputs, the greeter's surfaces, the
//! keyboard's focus and the pointer's image.
//!
//! The compositor is deliberately small. A greeter's windows are layer surfaces,
//! each fullscreen on one output, so there is no window management. Outputs and
//! surfaces are known here by numbers that stand for the real ones.
use vstd::prelude::*;

use crate::config::{is_ranking, Config};
use crate::text::{same, strings};

verus! {

/// How many layer surfaces the greeter may have at once.
///
/// The greeter is untrusted and every surface costs work in every frame. One per
/// output is the usual shape, so the cap is generous.
pub const MAX_LAYER_SURFACES: usize = 16;

/// Whether a greeter that holds `held` layer surfaces may create another.
pub fn layer_slot_free(held: usize) -> (r: bool)
    ensures
        r == (held < MAX_LAYER_SURFACES),
{
    held < MAX_LAYER_SURFACES
}

/// A layer surface that was accepted, and the output it belongs to.
#[derive(Debug, Clone, Copy, PartialEq, Eq, Structural)]
pub struct MappedLayer {
    pub surface: u64,
    /// None until an output exists.
    pub output: Option<u64>,
}

/// An output that is connected.
#[derive(Debug, PartialEq, Eq)]
pub struct Connected {
    pub id: u64,
    pub name: String,
}

/// What the pointer looks like.
#[derive(Debug, Clone, Copy, PartialEq, Eq, Structural)]
pub enum Cursor {
    /// The built-in arrow.
    Arrow,
    Hidden,
    /// A surface of the greeter's.
    Surface(u64),
}

/// The first connected output of a name.
///
/// Where two report one name, the older keeps it, so that what is shown on it
/// stays there.
pub open spec fn output_named(connected: Seq<Connected>, name: Seq<char>) -> Option<u64>
    decreases connected.len(),
{
    if connected.len() == 0 {
        None
    } else if connected[0].name@ == name {
        Some(connected[0].id)
    } else {
        output_named(connected.skip(1), name)
    }
}

/// The outputs of the ranked names, those without one left out.
pub open spec fn outputs_in_rank(ranked: Seq<Seq<char>>, connected: Seq<Connected>) -> Seq<u64>
    decreases ranked.len(),
{
    if ranked.len() == 0 {
        seq![]
    } else {
        let before = outputs_in_rank(ranked.drop_last(), connected);
        match output_named(connected, ranked.last()) {
            Some(id) => before.push(id),
            None => before,
        }
    }
}

/// The connected output of a name.
fn find_output(connected: &Vec<Connected>, name: &str) -> (r: Option<u64>)
    ensures
        r == output_named(connected@, name@),
{
    let ghost all = connected@;
    assert(all.skip(0) =~= all);
    for i in 0..connected.len()
        invariant
            all == connected@,
            output_named(all, name@) == output_named(all.skip(i as int), name@),
    {
        proof {
            assert(all.skip(i as int).skip(1) =~= all.skip(i as int + 1));
            assert(all.skip(i as int)[0] == all[i as int]);
        }
        if same(&connected[i].name, name) {
            return Some(connected[i].id);
        }
    }
    None
}

/// Put the connected outputs into the order of the ranked names, dropping what has
/// no rank.
///
/// A ranked name without an output is skipped: this runs when cables move.
pub fn order_by_rank(ranked: &Vec<String>, connected: &Vec<Connected>) -> (r: Vec<u64>)
    ensures
        r@ == outputs_in_rank(strings(ranked@), connected@),
{
    let mut r: Vec<u64> = Vec::new();
    let ghost names = strings(ranked@);
    for i in 0..ranked.len()
        invariant
            names == strings(ranked@),
            r@ == outputs_in_rank(names.take(i as int), connected@),
    {
        proof {
            assert(names.take(i as int + 1).drop_last() =~= names.take(i as int));
        }
        if let Some(id) = find_output(connected, &ranked[i]) {
            r.push(id);
        }
    }
    assert(names.take(names.len() as int) =~= names);
    r
}

/// The first layer that is on an output.
pub open spec fn layer_on(layers: Seq<MappedLayer>, output: u64) -> Option<u64>
    decreases layers.len(),
{
    if layers.len() == 0 {
        None
    } else if layers[0].output == Some(output) {
        Some(layers[0].surface)
    } else {
        layer_on(layers.skip(1), output)
    }
}

/// The surface that is typed into and pointed at: the first on the primary output,
/// or else the newest, so that a greeter whose display is gone can be typed into.
pub open spec fn focus_target(outputs: Seq<u64>, layers: Seq<MappedLayer>) -> Option<u64> {
    let newest = if layers.len() > 0 {
        Some(layers.last().surface)
    } else {
        None
    };
    if outputs.len() > 0 && layer_on(layers, outputs[0]) is Some {
        layer_on(layers, outputs[0])
    } else {
        newest
    }
}

/// A layer after the outputs changed: where it was if that is still there, and on
/// the primary output otherwise.
pub open spec fn reassigned(layer: MappedLayer, outputs: Seq<u64>) -> MappedLayer {
    if layer.output is Some && outputs.contains(layer.output->0) {
        layer
    } else {
        MappedLayer {
            output: if outputs.len() > 0 {
                Some(outputs[0])
            } else {
                None
            },
            ..layer
        }
    }
}

/// The outputs, the greeter's surfaces, and where input goes.
#[derive(Debug)]
pub struct Screen {
    /// Connected outputs in rank order; the first is the primary.
    pub outputs: Vec<u64>,
    pub layers: Vec<MappedLayer>,
    /// The surface that has the keyboard.
    pub focus: Option<u64>,
    pub cursor: Cursor,
}

/// Whether a number is among some.
fn contains(v: &Vec<u64>, x: u64) -> (r: bool)
    ensures
        r == v@.contains(x),
{
    for i in 0..v.len()
        invariant
            forall|j: int| 0 <= j < i ==> v@[j] != x,
    {
        if v[i] == x {
            return true;
        }
    }
    false
}

impl Screen {
    /// The keyboard is where it should be, and there are no more surfaces than a
    /// greeter may have.
    pub open spec fn wf(&self) -> bool {
        &&& self.focus == focus_target(self.outputs@, self.layers@)
        &&& self.layers@.len() <= MAX_LAYER_SURFACES
    }

    /// Every layer is on an output that is there, or on none where none is.
    pub open spec fn placed(&self) -> bool {
        forall|i: int|
            0 <= i < self.layers@.len() ==> match (#[trigger] self.layers@[i]).output {
                Some(output) => self.outputs@.contains(output),
                None => self.outputs@.len() == 0,
            }
    }

    /// A screen without outputs.
    pub fn new() -> (r: Screen)
        ensures
            r.outputs@.len() == 0,
            r.layers@.len() == 0,
            r.focus is None,
            r.cursor == Cursor::Arrow,
            r.wf(),
            r.placed(),
    {
        Screen { outputs: Vec::new(), layers: Vec::new(), focus: None, cursor: Cursor::Arrow }
    }

    /// The primary output, if anything is connected.
    pub fn primary_output(&self) -> (r: Option<u64>)
        ensures
            r == (if self.outputs@.len() > 0 {
                Some(self.outputs@[0])
            } else {
                None
            }),
    {
        if self.outputs.len() > 0 {
            Some(self.outputs[0])
        } else {
            None
        }
    }

    /// The surface that should have the input.
    pub fn focus_under(&self) -> (r: Option<u64>)
        ensures
            r == focus_target(self.outputs@, self.layers@),
    {
        let ghost all = self.layers@;
        assert(all.skip(0) =~= all);
        if self.outputs.len() > 0 {
            let primary: u64 = self.outputs[0];
            for i in 0..self.layers.len()
                invariant
                    all == self.layers@,
                    self.outputs@.len() > 0,
                    primary == self.outputs@[0],
                    layer_on(all, primary) == layer_on(all.skip(i as int), primary),
            {
                proof {
                    assert(all.skip(i as int).skip(1) =~= all.skip(i as int + 1));
                    assert(all.skip(i as int)[0] == all[i as int]);
                }
                if self.layers[i].output == Some(primary) {
                    return Some(self.layers[i].surface);
                }
            }
        }
        let n = self.layers.len();
        if n > 0 {
            Some(self.layers[n - 1].surface)
        } else {
            None
        }
    }

    /// Give the keyboard to the surface that should have it.
    pub fn update_focus(&mut self)
        ensures
            *final(self) == (Screen {
                focus: focus_target(old(self).outputs@, old(self).layers@),
                ..*old(self)
            }),
    {
        let target = self.focus_under();
        self.focus = target;
    }

    /// The outputs changed.
    ///
    /// `connected` is in whatever order they were found; the configuration imposes
    /// the ranks. A surface on an output that is gone moves to the primary one:
    /// unplugging a monitor must move the login form, not lose it. Returns the
    /// names in rank order.
    pub fn set_outputs(&mut self, connected: &Vec<Connected>, config: &Config) -> (ranked: Vec<
        String,
    >)
        requires
            old(self).wf(),
        ensures
            is_ranking(config.output@, names_of(connected@), strings(ranked@)),
            final(self).outputs@ == outputs_in_rank(strings(ranked@), connected@),
            final(self).layers@ == Seq::new(
                old(self).layers@.len(),
                |i: int| reassigned(old(self).layers@[i], final(self).outputs@),
            ),
            final(self).cursor == old(self).cursor,
            final(self).wf(),
            final(self).placed(),
    {
        let mut names: Vec<String> = Vec::new();
        for i in 0..connected.len()
            invariant
                names@.len() == i,
                forall|j: int| 0 <= j < i ==> (#[trigger] names@[j])@ == connected@[j].name@,
        {
            names.push(connected[i].name.clone());
        }
        assert(strings(names@) =~= names_of(connected@));
        let ranked = config.rank_outputs(&names);
        let outputs = order_by_rank(&ranked, connected);
        let primary: Option<u64> = if outputs.len() > 0 {
            Some(outputs[0])
        } else {
            None
        };
        let mut layers: Vec<MappedLayer> = Vec::new();
        for i in 0..self.layers.len()
            invariant
                *self == *old(self),
                primary == (if outputs@.len() > 0 {
                    Some(outputs@[0])
                } else {
                    None
                }),
                layers@.len() == i,
                forall|j: int|
                    0 <= j < i ==> #[trigger] layers@[j] == reassigned(self.layers@[j], outputs@),
        {
            let layer: MappedLayer = self.layers[i];
            let present: bool = match layer.output {
                Some(output) => contains(&outputs, output),
                None => false,
            };
            if present {
                layers.push(layer);
            } else {
                layers.push(MappedLayer { surface: layer.surface, output: primary });
            }
        }
        assert(layers@ =~= Seq::new(
            self.layers@.len(),
            |i: int| reassigned(self.layers@[i], outputs@),
        ));
        self.layers = layers;
        self.outputs = outputs;
        self.update_focus();
        proof {
            assert forall|i: int| 0 <= i < self.layers@.len() implies match (
            #[trigger] self.layers@[i]).output {
                Some(output) => self.outputs@.contains(output),
                None => self.outputs@.len() == 0,
            } by {
                if self.outputs@.len() > 0 {
                    assert(self.outputs@[0] == self.outputs@[0]);
                    assert(self.outputs@.contains(self.outputs@[0]));
                }
            }
        }
        ranked
    }

    /// The greeter asks for a layer surface, on an output or wherever.
    ///
    /// Returns whether it may have it. The output that is asked for counts if it is
    /// there, because a greeter that draws a background everywhere has a surface
    /// per output; otherwise it is the primary one.
    pub fn new_layer_surface(&mut self, surface: u64, asked: Option<u64>) -> (accepted: bool)
        requires
            old(self).wf(),
        ensures
            accepted == (old(self).layers@.len() < MAX_LAYER_SURFACES),
            !accepted ==> *final(self) == *old(self),
            accepted ==> {
                &&& final(self).layers@ == old(self).layers@.push(
                    reassigned(MappedLayer { surface, output: asked }, old(self).outputs@),
                )
                &&& final(self).outputs == old(self).outputs
                &&& final(self).cursor == old(self).cursor
            },
            final(self).wf(),
            old(self).placed() ==> final(self).placed(),
    {
        if !layer_slot_free(self.layers.len()) {
            return false;
        }
        let present: bool = match asked {
            Some(output) => contains(&self.outputs, output),
            None => false,
        };
        let output: Option<u64> = if present {
            asked
        } else {
            self.primary_output()
        };
        let ghost before = self.layers@;
        self.layers.push(MappedLayer { surface, output });
        self.update_focus();
        proof {
            if old(self).placed() {
                assert forall|i: int| 0 <= i < self.layers@.len() implies match (
                #[trigger] self.layers@[i]).output {
                    Some(output) => self.outputs@.contains(output),
                    None => self.outputs@.len() == 0,
                } by {
                    if i < before.len() {
                        assert(self.layers@[i] == before[i]);
                    } else if self.outputs@.len() > 0 {
                        assert(self.outputs@.contains(self.outputs@[0]));
                    }
                }
            }
        }
        true
    }

    /// A layer surface is gone.
    pub fn layer_destroyed(&mut self, surface: u64)
        requires
            old(self).wf(),
        ensures
            final(self).layers@ == old(self).layers@.filter(|l: MappedLayer| l.surface != surface),
            final(self).outputs == old(self).outputs,
            final(self).cursor == old(self).cursor,
            final(self).wf(),
            old(self).placed() ==> final(self).placed(),
    {
        let ghost keep = |l: MappedLayer| l.surface != surface;
        let mut layers: Vec<MappedLayer> = Vec::new();
        for i in 0..self.layers.len()
            invariant
                *self == *old(self),
                keep == (|l: MappedLayer| l.surface != surface),
                layers@ == self.layers@.take(i as int).filter(keep),
                layers@.len() <= i,
                old(self).placed() ==> forall|j: int|
                    0 <= j < layers@.len() ==> match (#[trigger] layers@[j]).output {
                        Some(output) => self.outputs@.contains(output),
                        None => self.outputs@.len() == 0,
                    },
        {
            let layer: MappedLayer = self.layers[i];
            proof {
                let next = self.layers@.take(i as int + 1);
                assert(next.drop_last() =~= self.layers@.take(i as int));
                assert(next.last() == layer);
                reveal(Seq::filter);
            }
            if layer.surface != surface {
                layers.push(layer);
            }
        }
        proof {
            assert(self.layers@.take(self.layers@.len() as int) =~= self.layers@);
        }
        self.layers = layers;
        self.update_focus();
    }

    /// The greeter sets the pointer's image.
    pub fn cursor_image(&mut self, cursor: Cursor)
        ensures
            *final(self) == (Screen { cursor, ..*old(self) }),
    {
        self.cursor = cursor;
    }

    /// Forget every surface the greeter left behind.
    ///
    /// Its pointer image too, which would be drawn from a surface that is gone, and
    /// the keyboard's focus, which would swallow the next greeter's first keys.
    pub fn forget_greeter(&mut self)
        ensures
            final(self).outputs == old(self).outputs,
            final(self).layers@.len() == 0,
            final(self).cursor == Cursor::Arrow,
            final(self).focus is None,
            final(self).wf(),
            final(self).placed(),
    {
        self.layers = Vec::new();
        self.cursor = Cursor::Arrow;
        self.update_focus();
    }

    /// The output that a layer surface is on.
    pub fn output_of(&self, surface: u64) -> (r: Option<u64>)
        ensures
            r == placement(self.layers@, surface),
    {
        let ghost all = self.layers@;
        assert(all.skip(0) =~= all);
        for i in 0..self.layers.len()
            invariant
                all == self.layers@,
                placement(all, surface) == placement(all.skip(i as int), surface),
        {
            proof {
                assert(all.skip(i as int).skip(1) =~= all.skip(i as int + 1));
                assert(all.skip(i as int)[0] == all[i as int]);
            }
            if self.layers[i].surface == surface {
                return self.layers[i].output;
            }
        }
        None
    }

    /// The output that a popup is kept inside: its layer's own, which may differ in
    /// size and scale from the primary one, which is taken where there is none.
    pub fn popup_output(&self, root: Option<u64>) -> (r: Option<u64>)
        ensures
            r == (match root {
                Some(surface) if placement(self.layers@, surface) is Some => placement(
                    self.layers@,
                    surface,
                ),
                _ => if self.outputs@.len() > 0 {
                    Some(self.outputs@[0])
                } else {
                    None
                },
            }),
    {
        let own: Option<u64> = match root {
            Some(surface) => self.output_of(surface),
            None => None,
        };
        if own.is_some() {
            own
        } else {
            self.primary_output()
        }
    }

    /// The surfaces to draw on an output: those whose layer is on it.
    pub fn layers_on(&self, output: u64) -> (r: Vec<u64>)
        ensures
            r@ == drawn_on(self.layers@, output),
    {
        let mut r: Vec<u64> = Vec::new();
        for i in 0..self.layers.len()
            invariant
                r@ == drawn_on(self.layers@.take(i as int), output),
        {
            proof {
                assert(self.layers@.take(i as int + 1).drop_last() =~= self.layers@.take(i as int));
            }
            if self.layers[i].output == Some(output) {
                r.push(self.layers[i].surface);
            }
        }
        assert(self.layers@.take(self.layers@.len() as int) =~= self.layers@);
        r
    }

    /// What to draw of the pointer on an output: nothing but on the primary one,
    /// which is where it is.
    pub fn pointer_on(&self, output: u64) -> (r: Cursor)
        ensures
            r == (if self.outputs@.len() > 0 && self.outputs@[0] == output {
                self.cursor
            } else {
                Cursor::Hidden
            }),
    {
        if self.outputs.len() > 0 && self.outputs[0] == output {
            self.cursor
        } else {
            Cursor::Hidden
        }
    }
}

/// The names of connected outputs.
pub open spec fn names_of(connected: Seq<Connected>) -> Seq<Seq<char>> {
    Seq::new(connected.len(), |i: int| connected[i].name@)
}

/// The output that a layer surface is on.
pub open spec fn placement(layers: Seq<MappedLayer>, surface: u64) -> Option<u64>
    decreases layers.len(),
{
    if layers.len() == 0 {
        None
    } else if layers[0].surface == surface {
        layers[0].output
    } else {
        placement(layers.skip(1), surface)
    }
}

/// The surfaces of the layers on an output.
pub open spec fn drawn_on(layers: Seq<MappedLayer>, output: u64) -> Seq<u64>
    decreases layers.len(),
{
    if layers.len() == 0 {
        seq![]
    } else if layers.last().output == Some(output) {
        drawn_on(layers.drop_last(), output).push(layers.last().surface)
    } else {
        drawn_on(layers.drop_last(), output)
    }
}

/// The keyboard is never on a surface that is gone: whatever has the focus is one
/// of the greeter's surfaces, and while there is one, one of them has it.
pub proof fn law_focus_is_on_a_surface(screen: Screen)
    requires
        screen.wf(),
    ensures
        screen.focus is Some <==> screen.layers@.len() > 0,
        screen.focus matches Some(surface) ==> exists|i: int|
            0 <= i < screen.layers@.len() && (#[trigger] screen.layers@[i]).surface == surface,
{
    let layers = screen.layers@;
    if screen.outputs@.len() > 0 {
        lemma_layer_on(layers, screen.outputs@[0]);
    }
    if layers.len() > 0 {
        assert(layers[layers.len() - 1].surface == layers.last().surface);
    }
}

proof fn lemma_layer_on(layers: Seq<MappedLayer>, output: u64)
    ensures
        layer_on(layers, output) matches Some(surface) ==> exists|i: int|
            0 <= i < layers.len() && (#[trigger] layers[i]).surface == surface
                && layers[i].output == Some(output),
        layer_on(layers, output) is None ==> forall|i: int|
            0 <= i < layers.len() ==> (#[trigger] layers[i]).output != Some(output),
    decreases layers.len(),
{
    if layers.len() > 0 && layers[0].output != Some(output) {
        let rest = layers.skip(1);
        lemma_layer_on(rest, output);
        if let Some(surface) = layer_on(rest, output) {
            let i = choose|i: int|
                0 <= i < rest.len() && (#[trigger] rest[i]).surface == surface && rest[i].output
                    == Some(output);
            assert(layers[i + 1].surface == surface);
        } else {
            assert forall|i: int| 0 <= i < layers.len() implies (#[trigger] layers[i]).output
                != Some(output) by {
                if i > 0 {
                    assert(rest[i - 1] == layers[i]);
                }
            }
        }
    }
}

/// Something that is drawn.
#[derive(Debug, Clone, Copy, PartialEq, Eq, Structural)]
pub enum Drawn {
    Pointer,
    /// One of the popups of a layer surface.
    Popup { layer: u64, index: usize },
    Layer(u64),
}

/// The popups of a layer surface from one on.
pub open spec fn popups_from(layer: u64, index: nat, count: nat) -> Seq<Drawn>
    decreases count - index,
{
    if index >= count {
        seq![]
    } else {
        seq![Drawn::Popup { layer, index: index as usize }] + popups_from(layer, index + 1, count)
    }
}

/// What is drawn of layers with so many popups each, the topmost first. A popup is
/// no part of its layer's tree, and is above it.
pub open spec fn stacked(layers: Seq<u64>, popups: Seq<usize>) -> Seq<Drawn>
    decreases layers.len(),
{
    if layers.len() == 0 {
        seq![]
    } else {
        stacked(layers.drop_last(), popups.drop_last()) + popups_from(
            layers.last(),
            0,
            popups.last() as nat,
        ).push(Drawn::Layer(layers.last()))
    }
}

/// What is drawn on an output, the topmost first: the pointer, and then each of its
/// layers below the layer's popups. `popups` is how many popups each layer has.
pub fn draw_order(layers: &Vec<u64>, popups: &Vec<usize>) -> (r: Vec<Drawn>)
    requires
        layers@.len() == popups@.len(),
    ensures
        r@ == seq![Drawn::Pointer] + stacked(layers@, popups@),
{
    let mut r: Vec<Drawn> = Vec::new();
    r.push(Drawn::Pointer);
    assert(r@ =~= seq![Drawn::Pointer] + stacked(layers@.take(0), popups@.take(0)));
    for i in 0..layers.len()
        invariant
            layers@.len() == popups@.len(),
            r@ == seq![Drawn::Pointer] + stacked(layers@.take(i as int), popups@.take(i as int)),
    {
        let layer: u64 = layers[i];
        let count: usize = popups[i];
        let ghost before = r@;
        let ghost all = popups_from(layer, 0, count as nat);
        for k in 0..count
            invariant
                r@ + popups_from(layer, k as nat, count as nat) == before + all,
        {
            let ghost sofar = r@;
            r.push(Drawn::Popup { layer, index: k });
            assert(r@ + popups_from(layer, k as nat + 1, count as nat) =~= sofar + popups_from(
                layer,
                k as nat,
                count as nat,
            ));
        }
        assert(r@ =~= before + all);
        r.push(Drawn::Layer(layer));
        proof {
            let (l, p) = (layers@.take(i as int + 1), popups@.take(i as int + 1));
            assert(l.drop_last() =~= layers@.take(i as int));
            assert(p.drop_last() =~= popups@.take(i as int));
            assert(r@ =~= seq![Drawn::Pointer] + stacked(l, p));
        }
    }
    assert(layers@.take(layers@.len() as int) =~= layers@);
    assert(popups@.take(popups@.len() as int) =~= popups@);
    r
}

proof fn lemma_popups_from(layer: u64, index: nat, count: nat, i: int)
    requires
        index <= count <= usize::MAX,
        0 <= i < count - index,
    ensures
        popups_from(layer, index, count).len() == count - index,
        popups_from(layer, index, count)[i] == (Drawn::Popup { layer, index: (index + i) as usize }),
    decreases count - index,
{
    if index + 1 < count {
        if i > 0 {
            lemma_popups_from(layer, index + 1, count, i - 1);
        } else {
            lemma_popups_from(layer, index + 1, count, 0);
        }
    } else {
        assert(popups_from(layer, index + 1, count).len() == 0);
    }
}

/// A layer is drawn at this place, and right above it its popups, in their order.
pub open spec fn is_stack(drawn: Seq<Drawn>, place: int, layer: u64, popups: usize) -> bool {
    &&& drawn[place] == Drawn::Layer(layer)
    &&& forall|j: int|
        0 <= j < popups ==> #[trigger] drawn[place - popups + j] == (Drawn::Popup {
            layer,
            index: j as usize,
        })
}

/// Whatever is drawn, every layer is, with all of its popups right above it.
pub proof fn law_popups_are_above_their_layer(layers: Seq<u64>, popups: Seq<usize>, i: int)
    requires
        layers.len() == popups.len(),
        0 <= i < layers.len(),
    ensures
        exists|k: int|
            popups[i] <= k < stacked(layers, popups).len() && #[trigger] is_stack(
                stacked(layers, popups),
                k,
                layers[i],
                popups[i],
            ),
    decreases layers.len(),
{
    let rest = stacked(layers.drop_last(), popups.drop_last());
    let last = popups_from(layers.last(), 0, popups.last() as nat);
    let all = stacked(layers, popups);
    if popups.last() > 0 {
        lemma_popups_from(layers.last(), 0, popups.last() as nat, 0);
    } else {
        assert(last.len() == 0);
    }
    if i == layers.len() - 1 {
        let k = (rest.len() + last.len()) as int;
        assert(all[k] == Drawn::Layer(layers[i]));
        assert forall|j: int| 0 <= j < popups[i] implies #[trigger] all[k - popups[i] + j] == (
        Drawn::Popup { layer: layers[i], index: j as usize }) by {
            lemma_popups_from(layers.last(), 0, popups.last() as nat, j);
            assert(all[rest.len() + j] == last[j]);
        }
        assert(is_stack(all, k, layers[i], popups[i]));
    } else {
        law_popups_are_above_their_layer(layers.drop_last(), popups.drop_last(), i);
        let k = choose|k: int|
            popups[i] <= k < rest.len() && #[trigger] is_stack(rest, k, layers[i], popups[i]);
        assert forall|j: int| 0 <= j < popups[i] implies #[trigger] all[k - popups[i] + j] == (
        Drawn::Popup { layer: layers[i], index: j as usize }) by {
            assert(rest[k - popups[i] + j] == all[k - popups[i] + j]);
        }
        assert(is_stack(all, k, layers[i], popups[i]));
    }
}

/// A rectangle in a surface's coordinates.
#[derive(Debug, Clone, Copy, PartialEq, Eq, Structural)]
pub struct Rect {
    pub x: i32,
    pub y: i32,
    pub width: i32,
    pub height: i32,
}

impl Rect {
    /// Whether a point is inside.
    pub open spec fn has(self, x: int, y: int) -> bool {
        &&& self.x <= x < self.x + self.width
        &&& self.y <= y < self.y + self.height
    }
}

/// An output of this size, in the coordinates of a surface that is so far inside it.
pub open spec fn seen_from(output: (i32, i32), offset: (i32, i32)) -> Rect {
    Rect { x: (-offset.0) as i32, y: (-offset.1) as i32, width: output.0, height: output.1 }
}

/// The rectangle a popup is kept inside, in its parent surface's coordinates.
///
/// A popup of a popup has a parent somewhere inside the output, so that the output
/// is shifted back by where the parent is; else a submenu near the bottom would be
/// told that it fits.
pub fn unconstrain_rect(output: (i32, i32), offset: (i32, i32)) -> (r: Rect)
    requires
        offset.0 > i32::MIN,
        offset.1 > i32::MIN,
    ensures
        r == seen_from(output, offset),
{
    Rect { x: -offset.0, y: -offset.1, width: output.0, height: output.1 }
}

/// A popup that is kept inside the rectangle is on the output: a point of its parent
/// is in the rectangle just when, shifted by where the parent is, it is on the
/// output.
pub proof fn law_popups_are_kept_on_the_output(
    output: (i32, i32),
    offset: (i32, i32),
    x: int,
    y: int,
)
    requires
        offset.0 > i32::MIN,
        offset.1 > i32::MIN,
    ensures
        seen_from(output, offset).has(x, y) <==> seen_from(output, (0, 0)).has(
            x + offset.0,
            y + offset.1,
        ),
{
}

/// What a surface that commits is, as far as that matters.
#[derive(Debug, Clone, Copy, PartialEq, Eq, Structural)]
pub struct Commit {
    /// An xdg popup, and whether its first configure was sent.
    pub popup: Option<bool>,
    /// A layer surface, and whether its first configure was sent.
    pub layer: Option<bool>,
}

/// What a commit calls for.
#[derive(Debug, Clone, Copy, PartialEq, Eq, Structural)]
pub struct CommitPlan {
    pub configure_popup: bool,
    pub configure_layer: bool,
}

/// What a commit calls for: nothing may be shown before the first configure, which
/// is sent when a surface first commits, and only then.
pub fn on_commit(commit: Commit) -> (r: CommitPlan)
    ensures
        r.configure_popup == (commit.popup == Some(false)),
        r.configure_layer == (commit.layer == Some(false)),
{
    CommitPlan {
        configure_popup: commit.popup == Some(false),
        configure_layer: commit.layer == Some(false),
    }
}

/// Whether a popup's grab must be given up: the keyboard is grabbed by something
/// that is neither this grab nor the one before it.
pub fn must_ungrab(grabbed: bool, by_this: bool, by_previous: bool) -> (r: bool)
    ensures
        r == (grabbed && !by_this && !by_previous),
{
    grabbed && !(by_this || by_previous)
}

/// Whether buffer formats must be advertised anew: a renderer that changed cannot
/// import what the last one could.
pub fn must_readvertise(advertised: &Vec<(u32, u64)>, formats: &Vec<(u32, u64)>) -> (r: bool)
    ensures
        r == (advertised@ != formats@),
{
    if advertised.len() != formats.len() {
        return true;
    }
    for i in 0..formats.len()
        invariant
            advertised@.len() == formats@.len(),
            forall|j: int| 0 <= j < i ==> advertised@[j] == formats@[j],
    {
        if advertised[i].0 != formats[i].0 || advertised[i].1 != formats[i].1 {
            assert(advertised@[i as int] != formats@[i as int]);
            return true;
        }
    }
    assert(advertised@ =~= formats@);
    false
}

/// Where outputs share a name, it is the name of the first; a name that none has
/// names nothing.
pub proof fn law_the_first_output_of_a_name(connected: Seq<Connected>, i: int)
    requires
        0 <= i < connected.len(),
    ensures
        names_of(connected).len() == connected.len(),
        names_of(connected)[i] == connected[i].name@,
        (forall|j: int| 0 <= j < i ==> (#[trigger] connected[j]).name@ != connected[i].name@)
            ==> output_named(connected, connected[i].name@) == Some(connected[i].id),
    decreases connected.len(),
{
    if i > 0 && (forall|j: int|
        0 <= j < i ==> (#[trigger] connected[j]).name@ != connected[i].name@) {
        let rest = connected.skip(1);
        assert forall|j: int| 0 <= j < i - 1 implies (#[trigger] rest[j]).name@
            != connected[i].name@ by {
            assert(rest[j] == connected[j + 1]);
        }
        law_the_first_output_of_a_name(rest, i - 1);
        assert(connected[0].name@ != connected[i].name@);
    }
}

/// What is not connected has no output.
pub proof fn law_a_name_without_an_output(connected: Seq<Connected>, name: Seq<char>)
    requires
        forall|j: int| 0 <= j < connected.len() ==> (#[trigger] connected[j]).name@ != name,
    ensures
        output_named(connected, name) is None,
    decreases connected.len(),
{
    if connected.len() > 0 {
        let rest = connected.skip(1);
        assert forall|j: int| 0 <= j < rest.len() implies (#[trigger] rest[j]).name@ != name by {
            assert(rest[j] == connected[j + 1]);
        }
        law_a_name_without_an_output(rest, name);
    }
}

/// Outputs come in the order of their names' ranks: what the first names give comes
/// before what the others give, and a name gives its output or nothing.
pub proof fn law_outputs_follow_the_ranks(
    first: Seq<Seq<char>>,
    others: Seq<Seq<char>>,
    connected: Seq<Connected>,
    name: Seq<char>,
)
    ensures
        outputs_in_rank(first + others, connected) == outputs_in_rank(first, connected)
            + outputs_in_rank(others, connected),
        output_named(connected, name) matches Some(id) ==> outputs_in_rank(seq![name], connected)
            == seq![id],
        output_named(connected, name) is None ==> outputs_in_rank(seq![name], connected).len() == 0,
    decreases others.len(),
{
    let one = seq![name];
    assert(one.drop_last() =~= Seq::<Seq<char>>::empty());
    assert(outputs_in_rank(one.drop_last(), connected) =~= Seq::<u64>::empty());
    if others.len() == 0 {
        assert(first + others =~= first);
    } else {
        law_outputs_follow_the_ranks(first, others.drop_last(), connected, name);
        assert((first + others).drop_last() =~= first + others.drop_last());
    }
}

/// The surface on the primary output that came first has the keyboard.
pub proof fn law_the_keyboard_is_on_the_primary_output(
    outputs: Seq<u64>,
    layers: Seq<MappedLayer>,
    i: int,
)
    requires
        outputs.len() > 0,
        0 <= i < layers.len(),
        layers[i].output == Some(outputs[0]),
        forall|j: int| 0 <= j < i ==> (#[trigger] layers[j]).output != Some(outputs[0]),
    ensures
        focus_target(outputs, layers) == Some(layers[i].surface),
    decreases i,
{
    if i > 0 {
        let rest = layers.skip(1);
        assert forall|j: int| 0 <= j < i - 1 implies (#[trigger] rest[j]).output != Some(
            outputs[0],
        ) by {
            assert(rest[j] == layers[j + 1]);
        }
        law_the_keyboard_is_on_the_primary_output(outputs, rest, i - 1);
        lemma_layer_on(rest, outputs[0]);
        assert(rest[i - 1] == layers[i]);
    }
}

/// Where nothing is on the primary output, the newest surface has the keyboard.
pub proof fn law_the_newest_surface_has_the_keyboard_else(
    outputs: Seq<u64>,
    layers: Seq<MappedLayer>,
)
    requires
        layers.len() > 0,
        outputs.len() > 0 ==> forall|j: int|
            0 <= j < layers.len() ==> (#[trigger] layers[j]).output != Some(outputs[0]),
    ensures
        focus_target(outputs, layers) == Some(layers[layers.len() - 1].surface),
{
    if outputs.len() > 0 {
        lemma_layer_on(layers, outputs[0]);
    }
}

/// A surface stays on its output while that is there and moves to the primary one
/// when it is not; it is never lost, and is nowhere only where there is no output.
pub proof fn law_a_surface_moves_only_when_it_must(layer: MappedLayer, outputs: Seq<u64>, i: int)
    ensures
        reassigned(layer, outputs).surface == layer.surface,
        0 <= i < outputs.len() && layer.output == Some(outputs[i]) ==> reassigned(layer, outputs)
            == layer,
        outputs.len() > 0 && (layer.output is None || !outputs.contains(layer.output->0))
            ==> reassigned(layer, outputs).output == Some(outputs[0]),
        outputs.len() == 0 ==> reassigned(layer, outputs).output is None,
{
}

/// A surface is where its layer is.
pub proof fn law_where_a_surface_is(layers: Seq<MappedLayer>, i: int)
    requires
        0 <= i < layers.len(),
        forall|j: int| 0 <= j < i ==> (#[trigger] layers[j]).surface != layers[i].surface,
    ensures
        placement(layers, layers[i].surface) == layers[i].output,
    decreases layers.len(),
{
    if i > 0 {
        let rest = layers.skip(1);
        assert forall|j: int| 0 <= j < i - 1 implies (#[trigger] rest[j]).surface
            != layers[i].surface by {
            assert(rest[j] == layers[j + 1]);
        }
        assert(rest[i - 1] == layers[i]);
        law_where_a_surface_is(rest, i - 1);
    }
}

/// A surface without a layer is nowhere.
pub proof fn law_a_surface_without_a_layer(layers: Seq<MappedLayer>, surface: u64)
    requires
        forall|j: int| 0 <= j < layers.len() ==> (#[trigger] layers[j]).surface != surface,
    ensures
        placement(layers, surface) is None,
    decreases layers.len(),
{
    if layers.len() > 0 {
        let rest = layers.skip(1);
        assert forall|j: int| 0 <= j < rest.len() implies (#[trigger] rest[j]).surface != surface by {
            assert(rest[j] == layers[j + 1]);
        }
        law_a_surface_without_a_layer(rest, surface);
    }
}

/// A layer is drawn on its own output and on no other, and layers are drawn in the
/// order they came in.
pub proof fn law_layers_are_drawn_where_they_are(
    first: Seq<MappedLayer>,
    others: Seq<MappedLayer>,
    layer: MappedLayer,
    output: u64,
)
    ensures
        drawn_on(first + others, output) == drawn_on(first, output) + drawn_on(others, output),
        layer.output == Some(output) ==> drawn_on(seq![layer], output) == seq![layer.surface],
        layer.output != Some(output) ==> drawn_on(seq![layer], output).len() == 0,
    decreases others.len(),
{
    let one = seq![layer];
    assert(one.drop_last() =~= Seq::<MappedLayer>::empty());
    assert(drawn_on(one.drop_last(), output) =~= Seq::<u64>::empty());
    if others.len() == 0 {
        assert(first + others =~= first);
    } else {
        law_layers_are_drawn_where_they_are(first, others.drop_last(), layer, output);
        assert((first + others).drop_last() =~= first + others.drop_last());
    }
}

/// Layers are drawn one after the other, each with its popups and nothing else.
pub proof fn law_layers_are_drawn_in_order(
    first: Seq<u64>,
    first_popups: Seq<usize>,
    others: Seq<u64>,
    other_popups: Seq<usize>,
    layer: u64,
    count: usize,
)
    requires
        first.len() == first_popups.len(),
        others.len() == other_popups.len(),
    ensures
        stacked(first + others, first_popups + other_popups) == stacked(first, first_popups)
            + stacked(others, other_popups),
        stacked(seq![layer], seq![count]).len() == count + 1,
        stacked(seq![layer], seq![count]).last() == Drawn::Layer(layer),
        forall|j: int|
            0 <= j < count ==> #[trigger] stacked(seq![layer], seq![count])[j] == (Drawn::Popup {
                layer,
                index: j as usize,
            }),
    decreases others.len(),
{
    let one = stacked(seq![layer], seq![count]);
    let above = popups_from(layer, 0, count as nat);
    assert(seq![layer].drop_last() =~= Seq::<u64>::empty());
    assert(stacked(seq![layer].drop_last(), seq![count].drop_last()) =~= Seq::<Drawn>::empty());
    assert(one =~= above.push(Drawn::Layer(layer)));
    if count > 0 {
        lemma_popups_from(layer, 0, count as nat, 0);
    } else {
        assert(above.len() == 0);
    }
    assert forall|j: int| 0 <= j < count implies #[trigger] one[j] == (Drawn::Popup {
        layer,
        index: j as usize,
    }) by {
        lemma_popups_from(layer, 0, count as nat, j);
    }
    if others.len() == 0 {
        assert(first + others =~= first);
        assert(first_popups + other_popups =~= first_popups);
        assert(stacked(others, other_popups).len() == 0);
        assert(stacked(first, first_popups) + stacked(others, other_popups) =~= stacked(
            first,
            first_popups,
        ));
    } else {
        law_layers_are_drawn_in_order(
            first,
            first_popups,
            others.drop_last(),
            other_popups.drop_last(),
            layer,
            count,
        );
        assert((first + others).drop_last() =~= first + others.drop_last());
        assert((first_popups + other_popups).drop_last() =~= first_popups
            + other_popups.drop_last());
        assert(stacked(first + others, first_popups + other_popups) =~= stacked(
            first,
            first_popups,
        ) + stacked(others, other_popups));
    }
}

/// A point of a parent is in the rectangle that its popup is kept inside just when
/// it is not off the output by any edge.
pub proof fn law_the_rectangle_is_the_output(
    output: (i32, i32),
    offset: (i32, i32),
    x: int,
    y: int,
)
    requires
        offset.0 > i32::MIN,
        offset.1 > i32::MIN,
    ensures
        ({
            let r = seen_from(output, offset);
            &&& r.x <= x < r.x + r.width <==> 0 <= x + offset.0 < output.0
            &&& r.y <= y < r.y + r.height <==> 0 <= y + offset.1 < output.1
        }),
{
}

/// A screen holds sixteen surfaces at most, each of them on an output that is there
/// or, without any, on none.
pub proof fn law_surfaces_are_few_and_placed(screen: Screen, i: int)
    requires
        screen.wf(),
        screen.placed(),
        0 <= i < screen.layers@.len(),
    ensures
        screen.layers@.len() <= 16,
        screen.layers@[i].output is None <==> screen.outputs@.len() == 0,
        screen.layers@[i].output matches Some(output) ==> screen.outputs@.contains(output),
{
}

/// A seventeenth surface is refused, and no earlier one.
pub proof fn law_how_many_surfaces_there_may_be(held: usize, free: bool)
    requires
        call_ensures(layer_slot_free, (held,), free),
    ensures
        free <==> held < 16,
{
}

/// The first configure is sent on the first commit and never again, to a popup and to
/// a layer each by itself.
pub proof fn law_the_first_commit_is_configured(commit: Commit, plan: CommitPlan)
    requires
        call_ensures(on_commit, (commit,), plan),
    ensures
        plan.configure_popup <==> commit.popup is Some && !commit.popup->0,
        plan.configure_layer <==> commit.layer is Some && !commit.layer->0,
{
}

/// A grab is given up to somebody else's only, and formats are advertised anew only
/// where they are others.
pub proof fn law_when_to_give_up_and_advertise(
    grabbed: bool,
    by_this: bool,
    by_previous: bool,
    ungrab: bool,
    advertised: Vec<(u32, u64)>,
    formats: Vec<(u32, u64)>,
    anew: bool,
)
    requires
        call_ensures(must_ungrab, (grabbed, by_this, by_previous), ungrab),
        call_ensures(must_readvertise, (&advertised, &formats), anew),
    ensures
        !grabbed || by_this || by_previous ==> !ungrab,
        grabbed && !by_this && !by_previous ==> ungrab,
        anew <==> advertised@ != formats@,
{
}

/// The pointer is drawn on the primary output and nowhere else, and a popup is kept on
/// its layer's output, or on the primary one where its layer has none.
pub proof fn law_where_the_pointer_and_popups_are(
    screen: &Screen,
    output: u64,
    cursor: Cursor,
    root: Option<u64>,
    kept: Option<u64>,
    primary: Option<u64>,
)
    requires
        call_ensures(Screen::pointer_on, (screen, output), cursor),
        call_ensures(Screen::popup_output, (screen, root), kept),
        call_ensures(Screen::primary_output, (screen,), primary),
    ensures
        screen.outputs@.len() > 0 ==> primary == Some(screen.outputs@[0]),
        screen.outputs@.len() == 0 ==> primary is None,
        primary == Some(output) ==> cursor == screen.cursor,
        primary != Some(output) ==> cursor == Cursor::Hidden,
        root is None ==> kept == primary,
        root matches Some(surface) ==> {
            let own = placement(screen.layers@, surface);
            (own is Some ==> kept == own) && (own is None ==> kept == primary)
        },
{
}

} // verus!
