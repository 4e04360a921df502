# bspwm-cyberquote

A quote ticker for the desktop: one window for each monitor shows a quote that is
typed out, glows, glitches now and then, and stands behind rolling scanlines and
floating squares.

`src/` is the logic, verified with Verus. `app/` is the GTK host around it: it
opens windows, runs timers, reads files and paints.

| Module | What it decides |
|---|---|
| `startup` | which configuration is taken, and how the user comes by a copy |
| `paths` | where quote files are looked for |
| `quotes` | what a quotes file yields, and which quotes the monitors are given |
| `monitors` | which monitors get a window, and what it shows and rotates through |
| `text` | alignment words, colours and font lists of the configuration |
| `typewriter` | how far a phrase is typed, and what of it shows |
| `caret` | where the caret stands, and its blink |
| `frame` | the layers of a frame and the strokes of the text block |
| `layout` | where the text block, its halo and its surface go |
| `cache` | which painted surfaces can be shown again |
| `blur`, `halo` | the glow: blurring, recolouring and sizes |
| `scanlines` | the scanline tile and how the mesh rolls |
| `glitch` | glitch bursts of the text |
| `squares` | the floating squares: lives, caps and glitches |
| `chance` | the one source of random numbers |

## Configuration

Looked for in this order; the first that loads is taken.

1. `~/.config/bspwm-cyberquote/config.toml`
2. `/etc/bspwm-cyberquote/config.toml`
3. `./config.toml`
4. built-in defaults

When the second is taken and the user has no file of their own yet, it is copied
to the first.
