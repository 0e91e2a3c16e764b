# newton

The logic of a streaming overlay, verified with Verus: a colour-carrying
Game of Life fed with RLE patterns from the message bus, a mouse-drawn
canvas, a text-mode rendering of the avatar, switches and credits set by bus
messages, a trading-card marquee, quote cards and user-submitted shaders.

- `src/` is the verified library. Each module states its behaviour over
  spec functions and views; the public proof functions named `law_*` state
  properties that span calls (a step brings no new colour, a line joins its
  end points, a switch flipped twice is as it was, cards enter the marquee
  spaced apart, ...).
- The trusted wrappers around outside crates (`base64`, `rand`,
  `byteorder`, `lexpr`, `termion`, `uuid`, `web_image_meta` and std's UTF-8
  decoding) each carry the contract they are trusted for.
- `tests/` runs the library on concrete values.
- `app/` is the renderer program around the library: the engine, OpenGL,
  the buses, redis, audio capture and everything in floating point.
