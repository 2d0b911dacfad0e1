# hyper-loader

A fullscreen Wayland overlay to show while a long-running command executes: a blurred screenshot
as a backdrop, a moving grid, corner brackets and pulsing rings in an accent color, and, as one
likes, a looping GIF, a counter of scrolling digits and glitch effects.

`src/` is the logic, verified with [Verus](https://github.com/verus-lang/verus):

| module       | what it does                                                              |
|--------------|---------------------------------------------------------------------------|
| `color`      | reads accent colors                                                       |
| `settings`   | puts command line, config file and defaults together                      |
| `config`     | finds the config file and decides what a failure to read it comes to      |
| `state`      | keeps a surface per output and follows the display server's events        |
| `picture`    | pictures of 8-bit pixels                                                  |
| `blur`       | the box blur                                                              |
| `blur_laws`  | what a blur keeps                                                         |
| `background` | makes the backdrop out of a PNG file                                      |
| `watch`      | decides what to do about the file with the screenshot                     |
| `gif`        | makes the animation out of a GIF file and picks the frame to show         |
| `blit`       | paints backdrop and animation onto the canvas                             |
| `scene`      | lists the layers of a frame; corner brackets, scanline and glitch bars    |
| `counter`    | the digits of the counter, where they stand and which dots they light     |
| `seed`       | pseudo-random numbers                                                     |

`app/` is the program around it: the command line, files, the Wayland connection, and drawing
with floating-point coordinates and colors.
