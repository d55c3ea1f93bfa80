use ergodox_keymap_parser::{
    parse_action, parse_action_definition, parse_actions, parse_integer, parse_key,
    parse_keymap, parse_keymaps, skip_insignificant, Action, Key, ParseError,
};

fn named(s: &str) -> Key {
    Key::Key(String::from(s))
}

#[test]
fn test_cub() {
    let input = "#include <util/delay.h>
#include \"action_layer.h\"
#include \"action_util.h\"
#include \"bootloader.h\"
#include \"keymap_common.h\"


const uint8_t PROGMEM keymaps[][MATRIX_ROWS][MATRIX_COLS] = {
    /*
     * Keymap: Default Layer in QWERTY
     *
     * ,--------------------------------------------------.           ,--------------------------------------------------.
     * |   ~    |   1  |   2  |   3  |   4  |   5  |   \\  |           |   -  |   6  |   7  |   8  |   9  |   0  |   =    |
     * |--------+------+------+------+------+-------------|           |------+------+------+------+------+------+--------|
     * | Tab    |   Q  |   W  |   E  |   R  |   T  | ~L5  |           | ~L6  |   Y  |   U  |   I  |   O  |   P  |   [    |
     * |--------+------+------+------+------+------|      |           |      |------+------+------+------+------+--------|
     * | Tab/Shf|   A  |   S  |   D  |   F  |   G  |------|           |------|   H  |   J  |   K  |   L  |   ;  |   '    |
     * |--------+------+------+------+------+------|  L0  |           | ~L7  |------+------+------+------+------+--------|
     * | LCtrl  |   Z  |   X  |   C  |   V  |   B  |      |           |      |   N  |   M  |   ,  |   .  |   /  |   ]    |
     * `--------+------+------+------+------+-------------'           `-------------+------+------+------+------+--------'
     *   | ~L5  | ~L2  | Caps | LAlt | LGui |                                       |  Lft |  Up  |  Dn  | Rght | ~L6  |
     *   `----------------------------------'                                       `----------------------------------'
     *                                        ,-------------.       ,-------------.
     *                                        | +L2  | Home |       | PgUp | Del  |
     *                                 ,------|------|------|       |------+------+------.
     *                                 |      |      |  End |       | PgDn |      |      |
     *                                 | BkSp |  ESC |------|       |------| Enter| Space|
     *                                 |      |      |  Spc |       | Ins  |      |      |
     *                                 `--------------------'       `--------------------'
     *
     *
     *
     ****************************************************************************************************
     *
     * Under XOrg, I use my own mapping from QWERTY to \"Workman for Programmers\"
     * See XOrg files in ./addons/ subdirectory.
     *
     * I have to do so, because of two things:
     * 1) my native language is Russian, and XOrg keymap for it is based on QWERTY layout
     * 2) I want to have non-standart shifted keys, like $ (as normal) and @ (as shifted), or _ and -
     *
     * And even if (2) could be solved using FN* keys (but there is limit in firmware for only 32 such
     * keys), then (1) can't be solved at firmware level at all.
     *
     * So, I have to stick with QWERTY as my main layout + my own XOrg keyboard layout for English.
     * But sometimes I have to input something when XOrg is not active - for example, in Linux console,
     * or in firmware console (while debugging firmware), or when keyboard is connected to not my computer.
     *
     * For such cases I have Layer1 :)
     * // hint: switch to Layer1 is only at Layer6
     *
     ****************************************************************************************************
     *
     *
     *
     * Keymap: Default Layer in Workman
     *
     * ,--------------------------------------------------.           ,--------------------------------------------------.
     * |  ~     |   ;  |   !  |   #  |   {  |   }  |   '  |           |   ^  |   [  |   ]  |   *  |   (  |   )  |   =    |
     * |--------+------+------+------+------+-------------|           |------+------+------+------+------+------+--------|
     * | Tab    |   Q  |   D  |   R  |   W  |   B  |  NO  |           | ~L7  |   J  |   F  |   U  |   P  |   $  |   :    |
     * |--------+------+------+------+------+------|      |           |      |------+------+------+------+------+--------|
     * | Tab/Shf|   A  |   S  |   H  |   T  |   G  |------|           |------|   Y  |   N  |   E  |   O  |   I  |   -    |
     * |--------+------+------+------+------+------| Home |           | End  |------+------+------+------+------+--------|
     * | LCtrl  |   Z  |   X  |   M  |   C  |   V  |      |           |      |   K  |   L  |   ,  |   .  |   /  |   |    |
     * `--------+------+------+------+------+-------------'           `-------------+------+------+------+------+--------'
     *   | ~L5  | ~L2  | Caps | LAlt | LGui |                                       |  Lft |  Up  |  Dn  | Rght | ~L6  |
     *   `----------------------------------'                                       `----------------------------------'
     *                                        ,-------------.       ,-------------.
     *                                        |  L0  |  +L2 |       | PgUp | Del  |
     *                                 ,------|------|------|       |------+------+------.
     *                                 |      |      |  NO  |       | PgDn |      |      |
     *                                 | BkSp |  ESC |------|       |------| Enter| Space|
     *                                 |      |      |  Spc |       | Ins  |      |      |
     *                                 `--------------------'       `--------------------'
     *
     * Keymap: Default Layer in Workman / with Shift
     *
     * ,--------------------------------------------------.           ,--------------------------------------------------.
     * |  `     |   1  |   2  |   3  |   4  |   5  |   \"  |           |   \\  |   6  |   7  |   8  |   9  |   0  |   +    |
     * |--------+------+------+------+------+-------------|           |------+------+------+------+------+------+--------|
     * | Tab    |   Q  |   D  |   R  |   W  |   B  |  NO  |           | ~L7  |   J  |   F  |   U  |   P  |   @  |   %    |
     * |--------+------+------+------+------+------|      |           |      |------+------+------+------+------+--------|
     * | Tab/Shf|   A  |   S  |   H  |   T  |   G  |------|           |------|   Y  |   N  |   E  |   O  |   I  |   _    |
     * |--------+------+------+------+------+------| Home |           | End  |------+------+------+------+------+--------|
     * | LCtrl  |   Z  |   X  |   M  |   C  |   V  |      |           |      |   K  |   L  |   ,  |   .  |   /  |   &    |
     * `--------+------+------+------+------+-------------'           `-------------+------+------+------+------+--------'
     *   | ~L5  | ~L2  | Caps | LAlt | LGui |                                       |  Lft |  Up  |  Dn  | Rght | ~L6  |
     *   `----------------------------------'                                       `----------------------------------'
     *                                        ,-------------.       ,-------------.
     *                                        |  L0  |  +L2 |       | PgUp | Del  |
     *                                 ,------|------|------|       |------+------+------.
     *                                 |      |      |  NO  |       | PgDn |      |      |
     *                                 | BkSp |  ESC |------|       |------| Enter| Space|
     *                                 |      |      |  Spc |       | Ins  |      |      |
     *                                 `--------------------'       `--------------------'
     *
     */

    KEYMAP(  /* Layer0: default, leftled:none*/
        /* left hand*/
        GRV, 1,   2,   3,   4,   5,   BSLS,
        FN2, Q,   W,   E,   R,   T,   FN23,
        FN11,FN28,FN29,FN30,FN31,G,
        FN12,FN24,FN25,FN26,FN27,B,   HOME,
        FN21,FN20,CAPS,FN13,FN14,
                                      FN17,FN19,
                                           NO,
                                 FN5, FN6, FN7,
        /* right hand*/
             MINS,6,   7,   8,   9,   0,   EQL,
             FN23,Y,   U,   I,   O,   P,   LBRC,
                  H,   J,   K,   L,   SCLN,FN15,
             END, N,   M,   COMM,DOT, SLSH,FN16,
                       LEFT,UP,  DOWN,RGHT,FN22,
        PGUP,DEL,
        PGDN,
        FN8, FN9, FN10
    ),

    KEYMAP(  /* Layer1: Workman layout, leftled:all*/
        /* left hand*/
        TRNS,TRNS,TRNS,TRNS,TRNS,TRNS,TRNS,
        TRNS,Q,   D,   R,   W,   B,   TRNS,
        TRNS,A,   S,   H,   T,   G,
        TRNS,Z,   X,   M,   C,   V,   TRNS,
        TRNS,TRNS,FN17,TRNS,TRNS,
                                      TRNS,TRNS,
                                           TRNS,
                                 TRNS,TRNS,TRNS,
        /* right hand */
             TRNS,TRNS,TRNS,TRNS,TRNS,TRNS,TRNS,
             TRNS,J,   F,   U,   P,   4,   TRNS,
                  Y,   N,   E,   O,   I,   TRNS,
             TRNS,K,   L,   TRNS,TRNS,TRNS,TRNS,
                       TRNS,TRNS,TRNS,TRNS,TRNS,
        TRNS,TRNS,
        TRNS,
        TRNS,TRNS,TRNS
    ),
    KEYMAP(  /* Layer2: numpad, leftled:mid/blue*/
        /* left hand*/
        TRNS,NO,  NO,  NO,  NO,  PAUS,PSCR,
        TRNS,NO,  NO,  NO,  NO,  NO,  TRNS,
        TRNS,NO,  NO,  NO,  TRNS,NO,
        TRNS,NO,  NO,  NO,  TRNS,NO,  TRNS,
        TRNS,TRNS,FN17,TRNS,TRNS,
                                      TRNS,TRNS,
                                           TRNS,
                                 TRNS,TRNS,TRNS,
        /* right hand */
             SLCK,NLCK,PSLS,PAST,PAST,PMNS,BSPC,
             TRNS,NO,  P7,  P8,  P9,  PMNS,PGUP,
                  NO,  P4,  P5,  P6,  PPLS,PGDN,
             TRNS,NO,  P1,  P2,  P3,  PPLS,PENT,
                       P0,  PDOT,SLSH,PENT,PENT,
        TRNS,TRNS,
        TRNS,
        TRNS,TRNS,TRNS
    ),

    KEYMAP(  
        /* left hand */
        TRNS,NO,  NO,  NO,  NO,  NO,  NO,
        TRNS,NO,  NO,  NO,  NO,  NO,  TRNS,
        TRNS,NO,  TRNS,NO,  NO,  NO,
        TRNS,NO,  TRNS,NO,  NO,  NO,  TRNS,
        TRNS,TRNS,TRNS,LALT,LGUI,
                                      TRNS,TRNS,
                                           TRNS,
                                 LCTL,LSFT,TRNS,
        /* right hand */
             NO,  NO,  NO,  NO,  NO,  NO,  TRNS,
             TRNS,NO,  F1,  F2,  F3,  F4,  PGUP,
                  NO,  F5,  F6,  F7,  F8,  PGDN,
             TRNS,NO,  F9,  F10, F11, F12, APP,
                       RGUI,RALT,TRNS,TRNS,TRNS,
        TRNS,TRNS,
        TRNS,
        TRNS,RSFT,RCTL
    ),
    KEYMAP(  /* Layer4: unconvenient keys on right hand, leftled:top/white*/
        /* left hand*/
        TRNS,NO,  NO,  NO,  NO,  NO,  NO,
        TRNS,NO,  NO,  NO,  NO,  NO,  TRNS,
        TRNS,TRNS,NO,  NO,  NO,  NO,
        TRNS,TRNS,NO,  NO,  NO,  NO,  TRNS,
        TRNS,TRNS,TRNS,LALT,LGUI,
                                      TRNS,TRNS,
                                           TRNS,
                                 TRNS,TRNS,TRNS,

        /* in Workman right hand will be:
                { } ( ) +
              ^ ! ?     =
              ' ! $ \" ; \
              # [ < > ] \
        */

        /* right hand */
             NO,  NO,  4,   5,   9,   0,   PPLS,
             TRNS,MINS,2,   FN5, 9,   0,   EQL,
                  BSLS,2,   P,   FN1, 1,   FN2,
             TRNS,3,   6,   FN3, FN4, 7,   FN2,
                       TRNS,TRNS,TRNS,TRNS,TRNS,
        TRNS,TRNS,
        TRNS,
        TRNS,TRNS,TRNS
    ),


    KEYMAP(  
        TRNS,F1,  F2,  F3,  F4,  F5,  F6,
        TRNS,P1,  P2,  P3,  P4,  P5,  TRNS,
        TRNS,TRNS,TRNS,E,   TRNS,TRNS,
        TRNS,TRNS,TRNS,TRNS,TRNS,TRNS,TRNS,
        TRNS,TRNS,TRNS,TRNS,TRNS,
                                      TRNS,TRNS,
                                           TRNS,
                                 TRNS,TRNS,TRNS,
             F7,  F8,  F9,  F10, F11, F12, TRNS,
             TRNS,P6,  P7,  P8,  P9,  P0,  TRNS,
                  TRNS,U,   TRNS,TRNS,TRNS,TRNS,
             TRNS,TRNS,TRNS,TRNS,TRNS,TRNS,TRNS,
                       TRNS,TRNS,TRNS,TRNS,TRNS,
        TRNS,TRNS,
        TRNS,
        TRNS,TRNS,TRNS
    ),

    KEYMAP(  
        FN0, F1,  F2,  F3,  F4,  F5,  F6,
        TRNS,P1,  P2,  P3,  P4,  P5,  TRNS,
        TRNS,TRNS,TRNS,E,   TRNS,TRNS,
        TRNS,TRNS,TRNS,TRNS,TRNS,TRNS,TRNS,
        FN18,TRNS,TRNS,TRNS,TRNS,
                                      TRNS,TRNS,
                                           TRNS,
                                 TRNS,TRNS,TRNS,
             F7,  F8,  F9,  F10, F11, F12, FN0,
             TRNS,P6,  P7,  P8,  P9,  P0,  TRNS,
                  TRNS,U,   TRNS,TRNS,TRNS,TRNS,
             TRNS,TRNS,TRNS,TRNS,TRNS,TRNS,TRNS,
                       TRNS,TRNS,TRNS,TRNS,TRNS,
        TRNS,TRNS,
        TRNS,
        TRNS,TRNS,TRNS
    ),

    KEYMAP( 
        FN0, NO,  NO,  NO,  NO,  NO,  NO,
        FN1, F13, F14, F15, F16, NO,  TRNS,
        TRNS,F17, F18, F19, F20, NO,
        TRNS,F21, F22, F23, F24, NO,  TRNS,
        TRNS,TRNS,TRNS,TRNS,TRNS,
                                      TRNS,TRNS,
                                           TRNS,
                                 TRNS,TRNS,TRNS,
        /* right hand */
             NO,  NO,  NO,  NO,  NO,  NO,  TRNS,
             TRNS,NO,  F1,  F2,  F3,  F4,  TRNS,
                  NO,  F5,  F6,  F7,  F8,  TRNS,
             TRNS,NO,  F9,  F10, F11, F12, TRNS,
                       TRNS,TRNS,TRNS,TRNS,TRNS,
        TRNS,TRNS,
        TRNS,
        SLEP,TRNS,TRNS
    ),

    KEYMAP(  /* Layer8: mouse and navigation, leftled:mid/blue+bot/green */
        /* left hand */
        TRNS,NO,  NO,  NO,  NO,  NO,  NO,
        TRNS,NO,  NO,  NO,  ACL0,NO,  TRNS,
        TRNS,NO,  NO,  TRNS,ACL1,NO,
        TRNS,NO,  NO,  TRNS,ACL2,NO,  TRNS,
        TRNS,TRNS,TRNS,TRNS,TRNS,
                                      TRNS,TRNS,
                                           TRNS,
                                 TRNS,TRNS,TRNS,

        /* right hand */
             F16, MPLY,MPRV,MNXT,VOLD,VOLU,MUTE,
             F14, BTN2,WH_L,WH_U,WH_D,WH_R,PGUP,
                  BTN1,MS_L,MS_U,MS_D,MS_R,PGDN,
             F15, BTN3,HOME,END, DEL, INS, NO,
                       TRNS,TRNS,TRNS,TRNS,TRNS,
        TRNS,TRNS,
        TRNS,
        TRNS,TRNS,TRNS
    ),

    KEYMAP(  /* Layer9: application-specific shortcuts (mostly browser), leftled:top/white+bot/green */
        /* left hand */
        TRNS,NO,  NO,  NO,  NO,  NO,  NO,
        TRNS,NO,  NO,  NO,  NO,  NO,  TRNS,
        TRNS,NO,  NO,  NO,  NO,  NO,
        TRNS,NO,  NO,  NO,  TRNS,NO,  TRNS,
        TRNS,TRNS,TRNS,TRNS,TRNS,
                                      TRNS,TRNS,
                                           TRNS,
                                 TRNS,TRNS,TRNS,
        /* right hand */
             NO,  NO,  NO,  NO,  NO,  NO,  TRNS,
             TRNS,NO,  FN12,FN13,FN14,FN15,FN10,
                  FN1, FN2, FN3, FN4, FN5, FN11,
             TRNS,TRNS,FN6, FN7, FN8, FN9, FN0,
                       TRNS,TRNS,TRNS,TRNS,TRNS,
        TRNS,TRNS,
        TRNS,
        TRNS,TRNS,TRNS
    ),

/*
       KEYMAP(
        TRNS,NO,  NO,  NO,  NO,  NO,  NO,
        TRNS,NO,  NO,  NO,  NO,  NO,  TRNS,
        TRNS,NO,  NO,  NO,  NO,  NO,
        TRNS,NO,  NO,  NO,  NO,  NO,  TRNS,
        TRNS,TRNS,TRNS,LALT,LGUI,
                                      TRNS,TRNS,
                                           TRNS,
                                 LCTL,LSFT,TRNS,
                   NO,  NO,  NO,  NO,  NO,  NO,  TRNS,
             TRNS,NO,  NO,  NO,  NO,  NO,  TRNS,
                  NO,  NO,  NO,  NO,  NO,  TRNS,
             TRNS,NO,  NO,  NO,  NO,  NO,  TRNS,
                       RGUI,RALT,TRNS,TRNS,TRNS,
        TRNS,TRNS,
        TRNS,
        TRNS,RSFT,RCTL
    ),
    KEYMAP( 
        TRNS,TRNS,TRNS,TRNS,TRNS,TRNS,TRNS,
        TRNS,TRNS,TRNS,TRNS,TRNS,TRNS,TRNS,
        TRNS,TRNS,TRNS,TRNS,TRNS,TRNS,
        TRNS,TRNS,TRNS,TRNS,TRNS,TRNS,TRNS,
        TRNS,TRNS,TRNS,TRNS,TRNS,
                                      TRNS,TRNS,
                                           TRNS,
                                 TRNS,TRNS,TRNS,
             TRNS,TRNS,TRNS,TRNS,TRNS,TRNS,TRNS,
             TRNS,TRNS,TRNS,TRNS,TRNS,TRNS,TRNS,
                  TRNS,TRNS,TRNS,TRNS,TRNS,TRNS,
             TRNS,TRNS,TRNS,TRNS,TRNS,TRNS,TRNS,
                       TRNS,TRNS,TRNS,TRNS,TRNS,
        TRNS,TRNS,
        TRNS,
        TRNS,TRNS,TRNS
    ),
*/

}";
    assert!(parse_keymaps(input).is_ok());
}

#[test]
fn test_keymapvec() {
    let keymaps = parse_keymaps("extra beginging junk
keymaps[][MATRIX_ROWS][MATRIX_COLS] 
= 
{

  KEYMAP(A,B,C,D),
  KEYMAP(X,Y,Z),
  KEYMAP(F11, F12, FN8, FN12)
}
").unwrap();

    let km1 = vec![Key::Key(String::from("A")),
                   Key::Key(String::from("B")),
                   Key::Key(String::from("C")),
                   Key::Key(String::from("D"))];

    let km2 = vec![Key::Key(String::from("X")),
                   Key::Key(String::from("Y")),
                   Key::Key(String::from("Z"))];

    let km3 = vec![Key::Key(String::from("F11")),
                   Key::Key(String::from("F12")),
                   Key::Fx(8),
                   Key::Fx(12)];

    let expectation = vec![km1, km2, km3];

    assert_eq!(keymaps, expectation);
}

#[test]
fn test_processed_keymap() {
    let expected = vec![Key::Key(String::from("F11")),
                        Key::Key(String::from("TRNS")),
                        Key::Fx(12)];
    assert_eq!(parse_keymap("KEYMAP(F11, TRNS, FN12)").unwrap(), expected);
}

#[test]
fn test_actions() {
    let actions = parse_actions("#include<foo>
fn_actions[]= {
[13] = ACTION_FUNCTION_TAP(FN11), 
[0] = ACTION_LAYER_SET(13, ON_BOTH /*comment*/),
}").unwrap();
    let mut idx = 0;
    assert_eq!(actions[&idx], Action::LayerSet(13, String::from("ON_BOTH")));
    idx = 13;
    assert_eq!(actions[&idx], Action::FunctionTap(Key::Fx(11)));
}

#[test]
fn test_processed_action() {
    assert_eq!(parse_action_definition("[13] = ACTION_FUNCTION(TRNS)").unwrap(),
               (13, Action::Function(Key::Key(String::from("TRNS")))));

    assert_eq!(parse_action_definition("[0] /* index */ = ACTION_MODS_TAP_KEY( RGUI /* or left? */, F11)").unwrap(),
               (0, Action::ModsTapKey(Key::Key(String::from("RGUI")), Key::Key(String::from("F11")))));
}

#[test]
fn test_processed_action_type() {
    assert_eq!(parse_action("ACTION_FUNCTION(TRNS)").unwrap(),
               Action::Function(Key::Key(String::from("TRNS"))));

    assert_eq!(parse_action("ACTION_FUNCTION_TAP(FN11)").unwrap(), Action::FunctionTap(Key::Fx(11)));

    assert_eq!(parse_action("ACTION_LAYER_MOMENTARY( /* temp layer */ 2 )").unwrap(),
               Action::LayerMomentary(2));

    assert_eq!(parse_action("ACTION_LAYER_SET(13, ON_BOTH /*comment*/)").unwrap(),
               Action::LayerSet(13, String::from("ON_BOTH")));

    assert_eq!(parse_action("ACTION_LAYER_TAP_KEY(28, SPC)").unwrap(),
               Action::LayerTapKey(28, Key::Key(String::from("SPC"))));

    assert_eq!(parse_action("ACTION_MODS_KEY(LGUI, BSLS)").unwrap(),
               Action::ModsKey(Key::Key(String::from("LGUI")), Key::Key(String::from("BSLS"))));

    assert_eq!(parse_action("ACTION_MODS_TAP_KEY( RGUI /* or left? */, F11)").unwrap(),
               Action::ModsTapKey(Key::Key(String::from("RGUI")), Key::Key(String::from("F11"))));
}

#[test]
fn test_processed_key() {
    assert_eq!(parse_key("FN11").unwrap(), Key::Fx(11));
}

#[test]
fn test_fn_actions() {
    let actions = parse_actions("fn_actions[] = {
       [0] =   ACTION_FUNCTION(TEENSY_KEY),
    /* Some line comment */
    [11] =   ACTION_MODS_KEY(MOD_LSFT, KC_BSLS),
    [12] =   ACTION_MODS_KEY(MOD_LSFT, KC_MINS),             
    [13] =   ACTION_MODS_KEY(MOD_LSFT, KC_COMM),             
    [14] =   ACTION_MODS_KEY(MOD_LSFT, KC_DOT),
 }");
    assert!(actions.is_ok());
    assert_eq!(actions.unwrap().len(), 5);
}

#[test]
fn test_action() {
    let input = "[11] = ACTION_FUNCTION(KC_SPC)";
    assert_eq!(input.len(), 30);
    assert_eq!(parse_action_definition(input).unwrap(),
               (11, Action::Function(named("KC_SPC"))));
}

#[test]
pub fn test_keymaps() {
    let input = "keymaps[][MATRIX_ROWS][MATRIX_COLS] = { KEYMAP(/* layer 0*/ TRNS, LGUI), 
KEYMAP(/*layer 1*/ BTN3, FN14), 
}";
    assert_eq!(input.len(), 108);
    assert_eq!(parse_keymaps(input).unwrap(),
               vec![vec![named("TRNS"), named("LGUI")], vec![named("BTN3"), Key::Fx(14)]]);
}

#[test]
fn test_keymap() {
    assert!(parse_keymap("KEYMAP( /* layer 8*/ TRNS, NO, 7, FN14)").is_ok());
}

#[test]
fn parser_test_keymap() {
    assert_eq!(parse_keymap("KEYMAP( /* layer 8*/ TRNS, NO, 7, FN14)").unwrap(),
               vec![named("TRNS"), named("NO"), named("7"), Key::Fx(14)]);
}

#[test]
fn test_comment() {
    let input = "/* block *//* comment */";
    assert_eq!(skip_insignificant(input), Ok(input.len()));
}

#[test]
fn test_key() {
    assert_eq!(parse_key("FN10"), Ok(Key::Fx(10)));
    assert_eq!(parse_key("MINS"), Ok(named("MINS")));
    assert_eq!(parse_key("8"), Ok(named("8")));
}

#[test]
fn test_whitespace() {
    assert_eq!(skip_insignificant(" "), Ok(1));
}

#[test]
fn test_integer() {
    assert_eq!(parse_integer("12345"), Ok(12345));
}

#[test]
fn test_action_id() {
    // A leading zero followed by more digits is rejected outright.
    assert_eq!(parse_integer("01"), Err(ParseError::InvalidInteger));
    assert_eq!(parse_key("FN01"), Err(ParseError::InvalidInteger));
}

#[test]
fn test_named_key() {
    assert_eq!(parse_key("SPC"), Ok(named("SPC")));
}

#[test]
fn test_fn_key() {
    assert_eq!(parse_key("FN10"), Ok(Key::Fx(10)));
}
