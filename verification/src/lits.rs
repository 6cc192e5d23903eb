//! Byte strings of the subtitle formats: their keywords, marks and fixed lines.
use vstd::prelude::*;

verus! {

/// `[Script Info]`.
pub open spec fn script_info_mark() -> Seq<u8> {
    seq![0x5Bu8, 0x53, 0x63, 0x72, 0x69, 0x70, 0x74, 0x20, 0x49, 0x6E, 0x66, 0x6F, 0x5D]
}

/// The bytes of [`script_info_mark`].
pub(crate) fn script_info_mark_bytes() -> (r: Vec<u8>)
    ensures
        r@ == script_info_mark(),
{
    let v = vec![0x5Bu8, 0x53, 0x63, 0x72, 0x69, 0x70, 0x74, 0x20, 0x49, 0x6E, 0x66, 0x6F, 0x5D];
    assert(v@ =~= script_info_mark());
    v
}

/// `[v4 Styles]`.
pub open spec fn v4_styles_mark() -> Seq<u8> {
    seq![0x5Bu8, 0x76, 0x34, 0x20, 0x53, 0x74, 0x79, 0x6C, 0x65, 0x73, 0x5D]
}

/// The bytes of [`v4_styles_mark`].
pub(crate) fn v4_styles_mark_bytes() -> (r: Vec<u8>)
    ensures
        r@ == v4_styles_mark(),
{
    let v = vec![0x5Bu8, 0x76, 0x34, 0x20, 0x53, 0x74, 0x79, 0x6C, 0x65, 0x73, 0x5D];
    assert(v@ =~= v4_styles_mark());
    v
}

/// `[v4 Styles+]`.
pub open spec fn v4_styles_plus_mark() -> Seq<u8> {
    seq![0x5Bu8, 0x76, 0x34, 0x20, 0x53, 0x74, 0x79, 0x6C, 0x65, 0x73, 0x2B, 0x5D]
}

/// The bytes of [`v4_styles_plus_mark`].
pub(crate) fn v4_styles_plus_mark_bytes() -> (r: Vec<u8>)
    ensures
        r@ == v4_styles_plus_mark(),
{
    let v = vec![0x5Bu8, 0x76, 0x34, 0x20, 0x53, 0x74, 0x79, 0x6C, 0x65, 0x73, 0x2B, 0x5D];
    assert(v@ =~= v4_styles_plus_mark());
    v
}

/// `[V4+ Styles]`.
pub open spec fn v4_plus_styles_mark() -> Seq<u8> {
    seq![0x5Bu8, 0x56, 0x34, 0x2B, 0x20, 0x53, 0x74, 0x79, 0x6C, 0x65, 0x73, 0x5D]
}

/// The bytes of [`v4_plus_styles_mark`].
pub(crate) fn v4_plus_styles_mark_bytes() -> (r: Vec<u8>)
    ensures
        r@ == v4_plus_styles_mark(),
{
    let v = vec![0x5Bu8, 0x56, 0x34, 0x2B, 0x20, 0x53, 0x74, 0x79, 0x6C, 0x65, 0x73, 0x5D];
    assert(v@ =~= v4_plus_styles_mark());
    v
}

/// `[Events]`.
pub open spec fn events_mark() -> Seq<u8> {
    seq![0x5Bu8, 0x45, 0x76, 0x65, 0x6E, 0x74, 0x73, 0x5D]
}

/// The bytes of [`events_mark`].
pub(crate) fn events_mark_bytes() -> (r: Vec<u8>)
    ensures
        r@ == events_mark(),
{
    let v = vec![0x5Bu8, 0x45, 0x76, 0x65, 0x6E, 0x74, 0x73, 0x5D];
    assert(v@ =~= events_mark());
    v
}

/// `[Fonts]`.
pub open spec fn fonts_mark() -> Seq<u8> {
    seq![0x5Bu8, 0x46, 0x6F, 0x6E, 0x74, 0x73, 0x5D]
}

/// The bytes of [`fonts_mark`].
pub(crate) fn fonts_mark_bytes() -> (r: Vec<u8>)
    ensures
        r@ == fonts_mark(),
{
    let v = vec![0x5Bu8, 0x46, 0x6F, 0x6E, 0x74, 0x73, 0x5D];
    assert(v@ =~= fonts_mark());
    v
}

/// `[Graphics]`.
pub open spec fn graphics_mark() -> Seq<u8> {
    seq![0x5Bu8, 0x47, 0x72, 0x61, 0x70, 0x68, 0x69, 0x63, 0x73, 0x5D]
}

/// The bytes of [`graphics_mark`].
pub(crate) fn graphics_mark_bytes() -> (r: Vec<u8>)
    ensures
        r@ == graphics_mark(),
{
    let v = vec![0x5Bu8, 0x47, 0x72, 0x61, 0x70, 0x68, 0x69, 0x63, 0x73, 0x5D];
    assert(v@ =~= graphics_mark());
    v
}

/// `Script Info`.
pub open spec fn script_info() -> Seq<u8> {
    seq![0x53u8, 0x63, 0x72, 0x69, 0x70, 0x74, 0x20, 0x49, 0x6E, 0x66, 0x6F]
}

/// The bytes of [`script_info`].
pub(crate) fn script_info_bytes() -> (r: Vec<u8>)
    ensures
        r@ == script_info(),
{
    let v = vec![0x53u8, 0x63, 0x72, 0x69, 0x70, 0x74, 0x20, 0x49, 0x6E, 0x66, 0x6F];
    assert(v@ =~= script_info());
    v
}

/// `v4 Styles`.
pub open spec fn v4_styles() -> Seq<u8> {
    seq![0x76u8, 0x34, 0x20, 0x53, 0x74, 0x79, 0x6C, 0x65, 0x73]
}

/// The bytes of [`v4_styles`].
pub(crate) fn v4_styles_bytes() -> (r: Vec<u8>)
    ensures
        r@ == v4_styles(),
{
    let v = vec![0x76u8, 0x34, 0x20, 0x53, 0x74, 0x79, 0x6C, 0x65, 0x73];
    assert(v@ =~= v4_styles());
    v
}

/// `v4 Styles+`.
pub open spec fn v4_styles_plus() -> Seq<u8> {
    seq![0x76u8, 0x34, 0x20, 0x53, 0x74, 0x79, 0x6C, 0x65, 0x73, 0x2B]
}

/// The bytes of [`v4_styles_plus`].
pub(crate) fn v4_styles_plus_bytes() -> (r: Vec<u8>)
    ensures
        r@ == v4_styles_plus(),
{
    let v = vec![0x76u8, 0x34, 0x20, 0x53, 0x74, 0x79, 0x6C, 0x65, 0x73, 0x2B];
    assert(v@ =~= v4_styles_plus());
    v
}

/// `V4+ Styles`.
pub open spec fn v4_plus_styles() -> Seq<u8> {
    seq![0x56u8, 0x34, 0x2B, 0x20, 0x53, 0x74, 0x79, 0x6C, 0x65, 0x73]
}

/// The bytes of [`v4_plus_styles`].
pub(crate) fn v4_plus_styles_bytes() -> (r: Vec<u8>)
    ensures
        r@ == v4_plus_styles(),
{
    let v = vec![0x56u8, 0x34, 0x2B, 0x20, 0x53, 0x74, 0x79, 0x6C, 0x65, 0x73];
    assert(v@ =~= v4_plus_styles());
    v
}

/// `Events`.
pub open spec fn events() -> Seq<u8> {
    seq![0x45u8, 0x76, 0x65, 0x6E, 0x74, 0x73]
}

/// The bytes of [`events`].
pub(crate) fn events_bytes() -> (r: Vec<u8>)
    ensures
        r@ == events(),
{
    let v = vec![0x45u8, 0x76, 0x65, 0x6E, 0x74, 0x73];
    assert(v@ =~= events());
    v
}

/// `Fonts`.
pub open spec fn fonts() -> Seq<u8> {
    seq![0x46u8, 0x6F, 0x6E, 0x74, 0x73]
}

/// The bytes of [`fonts`].
pub(crate) fn fonts_bytes() -> (r: Vec<u8>)
    ensures
        r@ == fonts(),
{
    let v = vec![0x46u8, 0x6F, 0x6E, 0x74, 0x73];
    assert(v@ =~= fonts());
    v
}

/// `Graphics`.
pub open spec fn graphics() -> Seq<u8> {
    seq![0x47u8, 0x72, 0x61, 0x70, 0x68, 0x69, 0x63, 0x73]
}

/// The bytes of [`graphics`].
pub(crate) fn graphics_bytes() -> (r: Vec<u8>)
    ensures
        r@ == graphics(),
{
    let v = vec![0x47u8, 0x72, 0x61, 0x70, 0x68, 0x69, 0x63, 0x73];
    assert(v@ =~= graphics());
    v
}

/// `Format: Layer, Start, End, Style, Name, MarginL, MarginR, MarginV, Effect, Text`.
pub open spec fn format_line() -> Seq<u8> {
    seq![0x46u8, 0x6F, 0x72, 0x6D, 0x61, 0x74, 0x3A, 0x20, 0x4C, 0x61, 0x79, 0x65, 0x72, 0x2C, 0x20, 0x53, 0x74, 0x61, 0x72, 0x74, 0x2C, 0x20, 0x45, 0x6E, 0x64, 0x2C, 0x20, 0x53, 0x74, 0x79, 0x6C, 0x65, 0x2C, 0x20, 0x4E, 0x61, 0x6D, 0x65, 0x2C, 0x20, 0x4D, 0x61, 0x72, 0x67, 0x69, 0x6E, 0x4C, 0x2C, 0x20, 0x4D, 0x61, 0x72, 0x67, 0x69, 0x6E, 0x52, 0x2C, 0x20, 0x4D, 0x61, 0x72, 0x67, 0x69, 0x6E, 0x56, 0x2C, 0x20, 0x45, 0x66, 0x66, 0x65, 0x63, 0x74, 0x2C, 0x20, 0x54, 0x65, 0x78, 0x74]
}

/// The bytes of [`format_line`].
pub(crate) fn format_line_bytes() -> (r: Vec<u8>)
    ensures
        r@ == format_line(),
{
    let v = vec![0x46u8, 0x6F, 0x72, 0x6D, 0x61, 0x74, 0x3A, 0x20, 0x4C, 0x61, 0x79, 0x65, 0x72, 0x2C, 0x20, 0x53, 0x74, 0x61, 0x72, 0x74, 0x2C, 0x20, 0x45, 0x6E, 0x64, 0x2C, 0x20, 0x53, 0x74, 0x79, 0x6C, 0x65, 0x2C, 0x20, 0x4E, 0x61, 0x6D, 0x65, 0x2C, 0x20, 0x4D, 0x61, 0x72, 0x67, 0x69, 0x6E, 0x4C, 0x2C, 0x20, 0x4D, 0x61, 0x72, 0x67, 0x69, 0x6E, 0x52, 0x2C, 0x20, 0x4D, 0x61, 0x72, 0x67, 0x69, 0x6E, 0x56, 0x2C, 0x20, 0x45, 0x66, 0x66, 0x65, 0x63, 0x74, 0x2C, 0x20, 0x54, 0x65, 0x78, 0x74];
    assert(v@ =~= format_line());
    v
}

/// `Format:`.
pub open spec fn format_prefix() -> Seq<u8> {
    seq![0x46u8, 0x6F, 0x72, 0x6D, 0x61, 0x74, 0x3A]
}

/// The bytes of [`format_prefix`].
pub(crate) fn format_prefix_bytes() -> (r: Vec<u8>)
    ensures
        r@ == format_prefix(),
{
    let v = vec![0x46u8, 0x6F, 0x72, 0x6D, 0x61, 0x74, 0x3A];
    assert(v@ =~= format_prefix());
    v
}

/// `Layer`.
pub open spec fn layer() -> Seq<u8> {
    seq![0x4Cu8, 0x61, 0x79, 0x65, 0x72]
}

/// The bytes of [`layer`].
pub(crate) fn layer_bytes() -> (r: Vec<u8>)
    ensures
        r@ == layer(),
{
    let v = vec![0x4Cu8, 0x61, 0x79, 0x65, 0x72];
    assert(v@ =~= layer());
    v
}

/// `Start`.
pub open spec fn start() -> Seq<u8> {
    seq![0x53u8, 0x74, 0x61, 0x72, 0x74]
}

/// The bytes of [`start`].
pub(crate) fn start_bytes() -> (r: Vec<u8>)
    ensures
        r@ == start(),
{
    let v = vec![0x53u8, 0x74, 0x61, 0x72, 0x74];
    assert(v@ =~= start());
    v
}

/// `End`.
pub open spec fn end() -> Seq<u8> {
    seq![0x45u8, 0x6E, 0x64]
}

/// The bytes of [`end`].
pub(crate) fn end_bytes() -> (r: Vec<u8>)
    ensures
        r@ == end(),
{
    let v = vec![0x45u8, 0x6E, 0x64];
    assert(v@ =~= end());
    v
}

/// `Style`.
pub open spec fn style() -> Seq<u8> {
    seq![0x53u8, 0x74, 0x79, 0x6C, 0x65]
}

/// The bytes of [`style`].
pub(crate) fn style_bytes() -> (r: Vec<u8>)
    ensures
        r@ == style(),
{
    let v = vec![0x53u8, 0x74, 0x79, 0x6C, 0x65];
    assert(v@ =~= style());
    v
}

/// `Name`.
pub open spec fn name() -> Seq<u8> {
    seq![0x4Eu8, 0x61, 0x6D, 0x65]
}

/// The bytes of [`name`].
pub(crate) fn name_bytes() -> (r: Vec<u8>)
    ensures
        r@ == name(),
{
    let v = vec![0x4Eu8, 0x61, 0x6D, 0x65];
    assert(v@ =~= name());
    v
}

/// `MarginL`.
pub open spec fn margin_l() -> Seq<u8> {
    seq![0x4Du8, 0x61, 0x72, 0x67, 0x69, 0x6E, 0x4C]
}

/// The bytes of [`margin_l`].
pub(crate) fn margin_l_bytes() -> (r: Vec<u8>)
    ensures
        r@ == margin_l(),
{
    let v = vec![0x4Du8, 0x61, 0x72, 0x67, 0x69, 0x6E, 0x4C];
    assert(v@ =~= margin_l());
    v
}

/// `MarginR`.
pub open spec fn margin_r() -> Seq<u8> {
    seq![0x4Du8, 0x61, 0x72, 0x67, 0x69, 0x6E, 0x52]
}

/// The bytes of [`margin_r`].
pub(crate) fn margin_r_bytes() -> (r: Vec<u8>)
    ensures
        r@ == margin_r(),
{
    let v = vec![0x4Du8, 0x61, 0x72, 0x67, 0x69, 0x6E, 0x52];
    assert(v@ =~= margin_r());
    v
}

/// `MarginV`.
pub open spec fn margin_v() -> Seq<u8> {
    seq![0x4Du8, 0x61, 0x72, 0x67, 0x69, 0x6E, 0x56]
}

/// The bytes of [`margin_v`].
pub(crate) fn margin_v_bytes() -> (r: Vec<u8>)
    ensures
        r@ == margin_v(),
{
    let v = vec![0x4Du8, 0x61, 0x72, 0x67, 0x69, 0x6E, 0x56];
    assert(v@ =~= margin_v());
    v
}

/// `Effect`.
pub open spec fn effect() -> Seq<u8> {
    seq![0x45u8, 0x66, 0x66, 0x65, 0x63, 0x74]
}

/// The bytes of [`effect`].
pub(crate) fn effect_bytes() -> (r: Vec<u8>)
    ensures
        r@ == effect(),
{
    let v = vec![0x45u8, 0x66, 0x66, 0x65, 0x63, 0x74];
    assert(v@ =~= effect());
    v
}

/// `Dialogue`.
pub open spec fn dialogue() -> Seq<u8> {
    seq![0x44u8, 0x69, 0x61, 0x6C, 0x6F, 0x67, 0x75, 0x65]
}

/// The bytes of [`dialogue`].
pub(crate) fn dialogue_bytes() -> (r: Vec<u8>)
    ensures
        r@ == dialogue(),
{
    let v = vec![0x44u8, 0x69, 0x61, 0x6C, 0x6F, 0x67, 0x75, 0x65];
    assert(v@ =~= dialogue());
    v
}

/// `Comment`.
pub open spec fn comment() -> Seq<u8> {
    seq![0x43u8, 0x6F, 0x6D, 0x6D, 0x65, 0x6E, 0x74]
}

/// The bytes of [`comment`].
pub(crate) fn comment_bytes() -> (r: Vec<u8>)
    ensures
        r@ == comment(),
{
    let v = vec![0x43u8, 0x6F, 0x6D, 0x6D, 0x65, 0x6E, 0x74];
    assert(v@ =~= comment());
    v
}

/// `Picture`.
pub open spec fn picture() -> Seq<u8> {
    seq![0x50u8, 0x69, 0x63, 0x74, 0x75, 0x72, 0x65]
}

/// The bytes of [`picture`].
pub(crate) fn picture_bytes() -> (r: Vec<u8>)
    ensures
        r@ == picture(),
{
    let v = vec![0x50u8, 0x69, 0x63, 0x74, 0x75, 0x72, 0x65];
    assert(v@ =~= picture());
    v
}

/// `Sound`.
pub open spec fn sound() -> Seq<u8> {
    seq![0x53u8, 0x6F, 0x75, 0x6E, 0x64]
}

/// The bytes of [`sound`].
pub(crate) fn sound_bytes() -> (r: Vec<u8>)
    ensures
        r@ == sound(),
{
    let v = vec![0x53u8, 0x6F, 0x75, 0x6E, 0x64];
    assert(v@ =~= sound());
    v
}

/// `Movie`.
pub open spec fn movie() -> Seq<u8> {
    seq![0x4Du8, 0x6F, 0x76, 0x69, 0x65]
}

/// The bytes of [`movie`].
pub(crate) fn movie_bytes() -> (r: Vec<u8>)
    ensures
        r@ == movie(),
{
    let v = vec![0x4Du8, 0x6F, 0x76, 0x69, 0x65];
    assert(v@ =~= movie());
    v
}

/// `Command`.
pub open spec fn command() -> Seq<u8> {
    seq![0x43u8, 0x6F, 0x6D, 0x6D, 0x61, 0x6E, 0x64]
}

/// The bytes of [`command`].
pub(crate) fn command_bytes() -> (r: Vec<u8>)
    ensures
        r@ == command(),
{
    let v = vec![0x43u8, 0x6F, 0x6D, 0x6D, 0x61, 0x6E, 0x64];
    assert(v@ =~= command());
    v
}

/// `Karaoke`.
pub open spec fn karaoke() -> Seq<u8> {
    seq![0x4Bu8, 0x61, 0x72, 0x61, 0x6F, 0x6B, 0x65]
}

/// The bytes of [`karaoke`].
pub(crate) fn karaoke_bytes() -> (r: Vec<u8>)
    ensures
        r@ == karaoke(),
{
    let v = vec![0x4Bu8, 0x61, 0x72, 0x61, 0x6F, 0x6B, 0x65];
    assert(v@ =~= karaoke());
    v
}

/// `Default`.
pub open spec fn default_style() -> Seq<u8> {
    seq![0x44u8, 0x65, 0x66, 0x61, 0x75, 0x6C, 0x74]
}

/// The bytes of [`default_style`].
pub(crate) fn default_style_bytes() -> (r: Vec<u8>)
    ensures
        r@ == default_style(),
{
    let v = vec![0x44u8, 0x65, 0x66, 0x61, 0x75, 0x6C, 0x74];
    assert(v@ =~= default_style());
    v
}

/// `Title`.
pub open spec fn title() -> Seq<u8> {
    seq![0x54u8, 0x69, 0x74, 0x6C, 0x65]
}

/// The bytes of [`title`].
pub(crate) fn title_bytes() -> (r: Vec<u8>)
    ensures
        r@ == title(),
{
    let v = vec![0x54u8, 0x69, 0x74, 0x6C, 0x65];
    assert(v@ =~= title());
    v
}

/// `Original Script`.
pub open spec fn original_script() -> Seq<u8> {
    seq![0x4Fu8, 0x72, 0x69, 0x67, 0x69, 0x6E, 0x61, 0x6C, 0x20, 0x53, 0x63, 0x72, 0x69, 0x70, 0x74]
}

/// The bytes of [`original_script`].
pub(crate) fn original_script_bytes() -> (r: Vec<u8>)
    ensures
        r@ == original_script(),
{
    let v = vec![0x4Fu8, 0x72, 0x69, 0x67, 0x69, 0x6E, 0x61, 0x6C, 0x20, 0x53, 0x63, 0x72, 0x69, 0x70, 0x74];
    assert(v@ =~= original_script());
    v
}

/// `Original Translation`.
pub open spec fn original_translation() -> Seq<u8> {
    seq![0x4Fu8, 0x72, 0x69, 0x67, 0x69, 0x6E, 0x61, 0x6C, 0x20, 0x54, 0x72, 0x61, 0x6E, 0x73, 0x6C, 0x61, 0x74, 0x69, 0x6F, 0x6E]
}

/// The bytes of [`original_translation`].
pub(crate) fn original_translation_bytes() -> (r: Vec<u8>)
    ensures
        r@ == original_translation(),
{
    let v = vec![0x4Fu8, 0x72, 0x69, 0x67, 0x69, 0x6E, 0x61, 0x6C, 0x20, 0x54, 0x72, 0x61, 0x6E, 0x73, 0x6C, 0x61, 0x74, 0x69, 0x6F, 0x6E];
    assert(v@ =~= original_translation());
    v
}

/// `Original Editing`.
pub open spec fn original_editing() -> Seq<u8> {
    seq![0x4Fu8, 0x72, 0x69, 0x67, 0x69, 0x6E, 0x61, 0x6C, 0x20, 0x45, 0x64, 0x69, 0x74, 0x69, 0x6E, 0x67]
}

/// The bytes of [`original_editing`].
pub(crate) fn original_editing_bytes() -> (r: Vec<u8>)
    ensures
        r@ == original_editing(),
{
    let v = vec![0x4Fu8, 0x72, 0x69, 0x67, 0x69, 0x6E, 0x61, 0x6C, 0x20, 0x45, 0x64, 0x69, 0x74, 0x69, 0x6E, 0x67];
    assert(v@ =~= original_editing());
    v
}

/// `Original Timing`.
pub open spec fn original_timing() -> Seq<u8> {
    seq![0x4Fu8, 0x72, 0x69, 0x67, 0x69, 0x6E, 0x61, 0x6C, 0x20, 0x54, 0x69, 0x6D, 0x69, 0x6E, 0x67]
}

/// The bytes of [`original_timing`].
pub(crate) fn original_timing_bytes() -> (r: Vec<u8>)
    ensures
        r@ == original_timing(),
{
    let v = vec![0x4Fu8, 0x72, 0x69, 0x67, 0x69, 0x6E, 0x61, 0x6C, 0x20, 0x54, 0x69, 0x6D, 0x69, 0x6E, 0x67];
    assert(v@ =~= original_timing());
    v
}

/// `Synch Point`.
pub open spec fn synch_point() -> Seq<u8> {
    seq![0x53u8, 0x79, 0x6E, 0x63, 0x68, 0x20, 0x50, 0x6F, 0x69, 0x6E, 0x74]
}

/// The bytes of [`synch_point`].
pub(crate) fn synch_point_bytes() -> (r: Vec<u8>)
    ensures
        r@ == synch_point(),
{
    let v = vec![0x53u8, 0x79, 0x6E, 0x63, 0x68, 0x20, 0x50, 0x6F, 0x69, 0x6E, 0x74];
    assert(v@ =~= synch_point());
    v
}

/// `Script Updated By`.
pub open spec fn script_updated_by() -> Seq<u8> {
    seq![0x53u8, 0x63, 0x72, 0x69, 0x70, 0x74, 0x20, 0x55, 0x70, 0x64, 0x61, 0x74, 0x65, 0x64, 0x20, 0x42, 0x79]
}

/// The bytes of [`script_updated_by`].
pub(crate) fn script_updated_by_bytes() -> (r: Vec<u8>)
    ensures
        r@ == script_updated_by(),
{
    let v = vec![0x53u8, 0x63, 0x72, 0x69, 0x70, 0x74, 0x20, 0x55, 0x70, 0x64, 0x61, 0x74, 0x65, 0x64, 0x20, 0x42, 0x79];
    assert(v@ =~= script_updated_by());
    v
}

/// `Update Details`.
pub open spec fn update_details() -> Seq<u8> {
    seq![0x55u8, 0x70, 0x64, 0x61, 0x74, 0x65, 0x20, 0x44, 0x65, 0x74, 0x61, 0x69, 0x6C, 0x73]
}

/// The bytes of [`update_details`].
pub(crate) fn update_details_bytes() -> (r: Vec<u8>)
    ensures
        r@ == update_details(),
{
    let v = vec![0x55u8, 0x70, 0x64, 0x61, 0x74, 0x65, 0x20, 0x44, 0x65, 0x74, 0x61, 0x69, 0x6C, 0x73];
    assert(v@ =~= update_details());
    v
}

/// `ScriptType`.
pub open spec fn script_type() -> Seq<u8> {
    seq![0x53u8, 0x63, 0x72, 0x69, 0x70, 0x74, 0x54, 0x79, 0x70, 0x65]
}

/// The bytes of [`script_type`].
pub(crate) fn script_type_bytes() -> (r: Vec<u8>)
    ensures
        r@ == script_type(),
{
    let v = vec![0x53u8, 0x63, 0x72, 0x69, 0x70, 0x74, 0x54, 0x79, 0x70, 0x65];
    assert(v@ =~= script_type());
    v
}

/// `Collisions`.
pub open spec fn collisions() -> Seq<u8> {
    seq![0x43u8, 0x6F, 0x6C, 0x6C, 0x69, 0x73, 0x69, 0x6F, 0x6E, 0x73]
}

/// The bytes of [`collisions`].
pub(crate) fn collisions_bytes() -> (r: Vec<u8>)
    ensures
        r@ == collisions(),
{
    let v = vec![0x43u8, 0x6F, 0x6C, 0x6C, 0x69, 0x73, 0x69, 0x6F, 0x6E, 0x73];
    assert(v@ =~= collisions());
    v
}

/// `PlayResY`.
pub open spec fn play_res_y() -> Seq<u8> {
    seq![0x50u8, 0x6C, 0x61, 0x79, 0x52, 0x65, 0x73, 0x59]
}

/// The bytes of [`play_res_y`].
pub(crate) fn play_res_y_bytes() -> (r: Vec<u8>)
    ensures
        r@ == play_res_y(),
{
    let v = vec![0x50u8, 0x6C, 0x61, 0x79, 0x52, 0x65, 0x73, 0x59];
    assert(v@ =~= play_res_y());
    v
}

/// `PlayResX`.
pub open spec fn play_res_x() -> Seq<u8> {
    seq![0x50u8, 0x6C, 0x61, 0x79, 0x52, 0x65, 0x73, 0x58]
}

/// The bytes of [`play_res_x`].
pub(crate) fn play_res_x_bytes() -> (r: Vec<u8>)
    ensures
        r@ == play_res_x(),
{
    let v = vec![0x50u8, 0x6C, 0x61, 0x79, 0x52, 0x65, 0x73, 0x58];
    assert(v@ =~= play_res_x());
    v
}

/// `PlayDepth`.
pub open spec fn play_depth() -> Seq<u8> {
    seq![0x50u8, 0x6C, 0x61, 0x79, 0x44, 0x65, 0x70, 0x74, 0x68]
}

/// The bytes of [`play_depth`].
pub(crate) fn play_depth_bytes() -> (r: Vec<u8>)
    ensures
        r@ == play_depth(),
{
    let v = vec![0x50u8, 0x6C, 0x61, 0x79, 0x44, 0x65, 0x70, 0x74, 0x68];
    assert(v@ =~= play_depth());
    v
}

/// `Timer`.
pub open spec fn timer() -> Seq<u8> {
    seq![0x54u8, 0x69, 0x6D, 0x65, 0x72]
}

/// The bytes of [`timer`].
pub(crate) fn timer_bytes() -> (r: Vec<u8>)
    ensures
        r@ == timer(),
{
    let v = vec![0x54u8, 0x69, 0x6D, 0x65, 0x72];
    assert(v@ =~= timer());
    v
}

/// `WrapStyle`.
pub open spec fn wrap_style() -> Seq<u8> {
    seq![0x57u8, 0x72, 0x61, 0x70, 0x53, 0x74, 0x79, 0x6C, 0x65]
}

/// The bytes of [`wrap_style`].
pub(crate) fn wrap_style_bytes() -> (r: Vec<u8>)
    ensures
        r@ == wrap_style(),
{
    let v = vec![0x57u8, 0x72, 0x61, 0x70, 0x53, 0x74, 0x79, 0x6C, 0x65];
    assert(v@ =~= wrap_style());
    v
}

/// `ScriptType: v4.00+`.
pub open spec fn script_type_line() -> Seq<u8> {
    seq![0x53u8, 0x63, 0x72, 0x69, 0x70, 0x74, 0x54, 0x79, 0x70, 0x65, 0x3A, 0x20, 0x76, 0x34, 0x2E, 0x30, 0x30, 0x2B]
}

/// The bytes of [`script_type_line`].
pub(crate) fn script_type_line_bytes() -> (r: Vec<u8>)
    ensures
        r@ == script_type_line(),
{
    let v = vec![0x53u8, 0x63, 0x72, 0x69, 0x70, 0x74, 0x54, 0x79, 0x70, 0x65, 0x3A, 0x20, 0x76, 0x34, 0x2E, 0x30, 0x30, 0x2B];
    assert(v@ =~= script_type_line());
    v
}

/// `WrapStyle: 0`.
pub open spec fn wrap_style_line() -> Seq<u8> {
    seq![0x57u8, 0x72, 0x61, 0x70, 0x53, 0x74, 0x79, 0x6C, 0x65, 0x3A, 0x20, 0x30]
}

/// The bytes of [`wrap_style_line`].
pub(crate) fn wrap_style_line_bytes() -> (r: Vec<u8>)
    ensures
        r@ == wrap_style_line(),
{
    let v = vec![0x57u8, 0x72, 0x61, 0x70, 0x53, 0x74, 0x79, 0x6C, 0x65, 0x3A, 0x20, 0x30];
    assert(v@ =~= wrap_style_line());
    v
}

/// `!:`.
pub open spec fn bang_colon() -> Seq<u8> {
    seq![0x21u8, 0x3A]
}

/// The bytes of [`bang_colon`].
pub(crate) fn bang_colon_bytes() -> (r: Vec<u8>)
    ensures
        r@ == bang_colon(),
{
    let v = vec![0x21u8, 0x3A];
    assert(v@ =~= bang_colon());
    v
}

/// ` --> `.
pub open spec fn arrow() -> Seq<u8> {
    seq![0x20u8, 0x2D, 0x2D, 0x3E, 0x20]
}

/// The bytes of [`arrow`].
pub(crate) fn arrow_bytes() -> (r: Vec<u8>)
    ensures
        r@ == arrow(),
{
    let v = vec![0x20u8, 0x2D, 0x2D, 0x3E, 0x20];
    assert(v@ =~= arrow());
    v
}

/// `WEBVTT\n\n`.
pub open spec fn webvtt_header() -> Seq<u8> {
    seq![0x57u8, 0x45, 0x42, 0x56, 0x54, 0x54, 0x0A, 0x0A]
}

/// The bytes of [`webvtt_header`].
pub(crate) fn webvtt_header_bytes() -> (r: Vec<u8>)
    ensures
        r@ == webvtt_header(),
{
    let v = vec![0x57u8, 0x45, 0x42, 0x56, 0x54, 0x54, 0x0A, 0x0A];
    assert(v@ =~= webvtt_header());
    v
}

/// `WEBVTT`.
pub open spec fn webvtt() -> Seq<u8> {
    seq![0x57u8, 0x45, 0x42, 0x56, 0x54, 0x54]
}

/// The bytes of [`webvtt`].
pub(crate) fn webvtt_bytes() -> (r: Vec<u8>)
    ensures
        r@ == webvtt(),
{
    let v = vec![0x57u8, 0x45, 0x42, 0x56, 0x54, 0x54];
    assert(v@ =~= webvtt());
    v
}

/// The UTF-8 byte order mark.
pub open spec fn bom() -> Seq<u8> {
    seq![0xEFu8, 0xBB, 0xBF]
}

/// The bytes of [`bom`].
pub(crate) fn bom_bytes() -> (r: Vec<u8>)
    ensures
        r@ == bom(),
{
    let v = vec![0xEFu8, 0xBB, 0xBF];
    assert(v@ =~= bom());
    v
}

} // verus!
